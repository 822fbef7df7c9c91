use chat_relay::channel::Channel;
use chat_relay::subscriber::Subscriber;
use tokio::sync::mpsc::{unbounded_channel, UnboundedReceiver};
use tokio_tungstenite::tungstenite::Message;

fn subscriber(id: u64) -> (Subscriber, UnboundedReceiver<Message>) {
    let (tx, rx) = unbounded_channel::<Message>();
    (Subscriber::new(id, tx), rx)
}

fn received(rx: &mut UnboundedReceiver<Message>) -> Vec<String> {
    let mut texts = Vec::new();
    while let Ok(message) = rx.try_recv() {
        match message {
            Message::Text(text) => texts.push(text),
            other => panic!("not a text frame: {:?}", other),
        }
    }
    texts
}

#[test]
fn a_new_room_is_empty() {
    let room = Channel::new("lobby".to_string());
    assert_eq!(room.name(), "lobby");
    assert_eq!(room.sender_ids(), Vec::<u64>::new());
    assert_eq!(room.history().len(), 0);
}

#[test]
fn publish_stores_the_message_under_the_given_time() {
    let mut room = Channel::new("lobby".to_string());
    room.publish("alice".to_string(), "hello".to_string(), 45_296);
    assert_eq!(room.history().len(), 1);
    assert_eq!(room.history()[0].sender(), "alice");
    assert_eq!(room.history()[0].content(), "hello");
    assert_eq!(room.history()[0].timestamp(), 45_296);
}

#[test]
fn publish_offers_the_live_frame_to_every_subscriber() {
    let mut room = Channel::new("lobby".to_string());
    let (a, mut rx_a) = subscriber(1);
    let (b, mut rx_b) = subscriber(2);
    room.add_sender(a);
    room.add_sender(b);
    room.publish("alice".to_string(), "hello".to_string(), 0);
    assert_eq!(received(&mut rx_a), vec!["alice: hello".to_string()]);
    assert_eq!(received(&mut rx_b), vec!["alice: hello".to_string()]);
}

#[test]
fn a_joiner_is_replayed_the_history_with_times_of_day() {
    let mut room = Channel::new("lobby".to_string());
    room.publish("alice".to_string(), "one".to_string(), 45_296);
    room.publish("bob".to_string(), "two".to_string(), 86_399);
    room.publish("carol".to_string(), "three".to_string(), 86_400);
    let (late, mut rx) = subscriber(5);
    room.add_sender(late);
    assert_eq!(
        received(&mut rx),
        vec![
            "alice [12:34:56]: one".to_string(),
            "bob [23:59:59]: two".to_string(),
            "carol [00:00:00]: three".to_string(),
        ]
    );
    room.publish("dave".to_string(), "four".to_string(), 86_401);
    assert_eq!(received(&mut rx), vec!["dave: four".to_string()]);
    assert_eq!(room.sender_ids(), vec![5]);
}

#[test]
fn publish_drops_exactly_the_closed_queues() {
    let mut room = Channel::new("lobby".to_string());
    let (a, rx_a) = subscriber(1);
    let (b, mut rx_b) = subscriber(2);
    let (c, rx_c) = subscriber(3);
    let (d, mut rx_d) = subscriber(4);
    room.add_sender(a);
    room.add_sender(b);
    room.add_sender(c);
    room.add_sender(d);
    drop(rx_a);
    drop(rx_c);
    room.publish("x".to_string(), "y".to_string(), 0);
    assert_eq!(room.sender_ids(), vec![2, 4]);
    assert_eq!(received(&mut rx_b), vec!["x: y".to_string()]);
    assert_eq!(received(&mut rx_d), vec!["x: y".to_string()]);
}

#[test]
fn remove_sender_keeps_the_history() {
    let mut room = Channel::new("lobby".to_string());
    let (a, _rx) = subscriber(1);
    room.add_sender(a);
    room.publish("x".to_string(), "y".to_string(), 0);
    room.remove_sender(1);
    assert_eq!(room.sender_ids(), Vec::<u64>::new());
    assert_eq!(room.history().len(), 1);
    room.remove_sender(1);
    assert_eq!(room.sender_ids(), Vec::<u64>::new());
}

#[test]
fn a_fresh_handle_shares_identity_and_queue() {
    let (a, mut rx) = subscriber(11);
    let mut other = a.fresh_handle();
    assert_eq!(other.id(), 11);
    assert!(other.send_text("through the other handle"));
    assert_eq!(received(&mut rx), vec!["through the other handle".to_string()]);
}
