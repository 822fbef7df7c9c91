use chat_relay::manager::ChannelManager;
use chat_relay::subscriber::Subscriber;
use tokio::sync::mpsc::{unbounded_channel, UnboundedReceiver};
use tokio_tungstenite::tungstenite::Message;

fn subscriber(id: u64) -> (Subscriber, UnboundedReceiver<Message>) {
    let (tx, rx) = unbounded_channel::<Message>();
    (Subscriber::new(id, tx), rx)
}

fn received(rx: &mut UnboundedReceiver<Message>) -> Vec<String> {
    let mut texts = Vec::new();
    while let Ok(message) = rx.try_recv() {
        match message {
            Message::Text(text) => texts.push(text),
            other => panic!("not a text frame: {:?}", other),
        }
    }
    texts
}

fn clock(timestamp: i64) -> String {
    let second = timestamp.rem_euclid(86_400);
    format!("{:02}:{:02}:{:02}", second / 3_600, (second / 60) % 60, second % 60)
}

fn ids(manager: &ChannelManager, room: &str) -> Vec<u64> {
    manager.channel(&room.to_string()).unwrap().sender_ids()
}

#[test]
fn a_new_registry_has_no_rooms() {
    let manager = ChannelManager::new();
    assert_eq!(manager.get_active_rooms(), Vec::<String>::new());
    assert!(manager.channel(&"lobby".to_string()).is_none());
}

#[test]
fn ensuring_a_room_twice_yields_one_room() {
    let mut manager = ChannelManager::new();
    manager.get_or_create_channel("lobby".to_string());
    manager.get_or_create_channel("lobby".to_string());
    assert_eq!(manager.get_active_rooms(), vec!["lobby".to_string()]);
}

#[test]
fn ensuring_a_room_keeps_its_subscribers_and_history() {
    let mut manager = ChannelManager::new();
    manager.get_or_create_channel("lobby".to_string());
    let (alice, _rx) = subscriber(1);
    manager.add_sender_to_channel("lobby".to_string(), alice);
    manager.broadcast_message("lobby".to_string(), "alice".to_string(), "hello".to_string());
    manager.get_or_create_channel("lobby".to_string());
    let room = manager.channel(&"lobby".to_string()).unwrap();
    assert_eq!(room.sender_ids(), vec![1]);
    assert_eq!(room.history().len(), 1);
}

#[test]
fn rooms_are_listed_in_the_order_of_their_creation() {
    let mut manager = ChannelManager::new();
    manager.get_or_create_channel("zebra".to_string());
    manager.get_or_create_channel("apple".to_string());
    manager.get_or_create_channel("zebra".to_string());
    manager.get_or_create_channel("".to_string());
    assert_eq!(
        manager.get_active_rooms(),
        vec!["zebra".to_string(), "apple".to_string(), "".to_string()]
    );
}

#[test]
fn a_room_is_found_under_its_name() {
    let mut manager = ChannelManager::new();
    manager.get_or_create_channel("a".to_string());
    manager.get_or_create_channel("b".to_string());
    assert_eq!(manager.channel(&"b".to_string()).unwrap().name(), "b");
    assert!(manager.channel(&"b".to_string()).unwrap().is_called(&"b".to_string()));
    assert!(!manager.channel(&"b".to_string()).unwrap().is_called(&"a".to_string()));
    assert!(manager.channel(&"c".to_string()).is_none());
}

#[test]
fn join_then_broadcast_is_received_once() {
    let mut manager = ChannelManager::new();
    manager.get_or_create_channel("lobby".to_string());
    let (alice, mut rx) = subscriber(1);
    manager.add_sender_to_channel("lobby".to_string(), alice);
    manager.broadcast_message("lobby".to_string(), "bob".to_string(), "hello".to_string());
    assert_eq!(received(&mut rx), vec!["bob: hello".to_string()]);
    assert_eq!(ids(&manager, "lobby"), vec![1]);
}

#[test]
fn join_to_a_missing_room_does_nothing() {
    let mut manager = ChannelManager::new();
    let (alice, mut rx) = subscriber(1);
    manager.add_sender_to_channel("lobby".to_string(), alice);
    assert_eq!(manager.get_active_rooms(), Vec::<String>::new());
    manager.get_or_create_channel("lobby".to_string());
    manager.broadcast_message("lobby".to_string(), "bob".to_string(), "hello".to_string());
    assert_eq!(received(&mut rx), Vec::<String>::new());
    assert_eq!(ids(&manager, "lobby"), Vec::<u64>::new());
}

#[test]
fn leave_then_broadcast_is_not_received() {
    let mut manager = ChannelManager::new();
    manager.get_or_create_channel("lobby".to_string());
    let (alice, mut rx) = subscriber(1);
    let handle = alice.fresh_handle();
    manager.add_sender_to_channel("lobby".to_string(), alice);
    manager.remove_sender_from_channel("lobby".to_string(), &handle);
    manager.broadcast_message("lobby".to_string(), "bob".to_string(), "hello".to_string());
    assert_eq!(received(&mut rx), Vec::<String>::new());
    assert_eq!(ids(&manager, "lobby"), Vec::<u64>::new());
}

#[test]
fn leave_removes_by_identity_and_keeps_the_others_in_order() {
    let mut manager = ChannelManager::new();
    manager.get_or_create_channel("lobby".to_string());
    let (a, mut rx_a) = subscriber(1);
    let (b, mut rx_b) = subscriber(2);
    let (c, mut rx_c) = subscriber(3);
    let b_handle = b.fresh_handle();
    manager.add_sender_to_channel("lobby".to_string(), a);
    manager.add_sender_to_channel("lobby".to_string(), b);
    manager.add_sender_to_channel("lobby".to_string(), c);
    manager.remove_sender_from_channel("lobby".to_string(), &b_handle);
    assert_eq!(ids(&manager, "lobby"), vec![1, 3]);
    manager.broadcast_message("lobby".to_string(), "x".to_string(), "y".to_string());
    assert_eq!(received(&mut rx_a), vec!["x: y".to_string()]);
    assert_eq!(received(&mut rx_b), Vec::<String>::new());
    assert_eq!(received(&mut rx_c), vec!["x: y".to_string()]);
}

#[test]
fn leave_removes_every_handle_of_the_identity() {
    let mut manager = ChannelManager::new();
    manager.get_or_create_channel("lobby".to_string());
    let (a, mut rx) = subscriber(7);
    manager.add_sender_to_channel("lobby".to_string(), a.fresh_handle());
    manager.add_sender_to_channel("lobby".to_string(), a.fresh_handle());
    assert_eq!(ids(&manager, "lobby"), vec![7, 7]);
    manager.remove_sender_from_channel("lobby".to_string(), &a);
    assert_eq!(ids(&manager, "lobby"), Vec::<u64>::new());
    manager.broadcast_message("lobby".to_string(), "x".to_string(), "y".to_string());
    assert_eq!(received(&mut rx), Vec::<String>::new());
}

#[test]
fn leave_of_a_missing_room_or_member_does_nothing() {
    let mut manager = ChannelManager::new();
    manager.get_or_create_channel("x".to_string());
    let (a, _rx_a) = subscriber(1);
    let (b, _rx_b) = subscriber(2);
    manager.add_sender_to_channel("x".to_string(), a.fresh_handle());
    manager.remove_sender_from_channel("y".to_string(), &a);
    manager.remove_sender_from_channel("x".to_string(), &b);
    assert_eq!(manager.get_active_rooms(), vec!["x".to_string()]);
    assert_eq!(ids(&manager, "x"), vec![1]);
}

#[test]
fn history_is_replayed_in_order_before_live_messages() {
    let mut manager = ChannelManager::new();
    manager.get_or_create_channel("lobby".to_string());
    manager.broadcast_message("lobby".to_string(), "a".to_string(), "one".to_string());
    manager.broadcast_message("lobby".to_string(), "b".to_string(), "two".to_string());
    manager.broadcast_message("lobby".to_string(), "c".to_string(), "three".to_string());
    let stamps: Vec<i64> = manager
        .channel(&"lobby".to_string())
        .unwrap()
        .history()
        .iter()
        .map(|message| message.timestamp())
        .collect();
    assert_eq!(stamps.len(), 3);

    let (late, mut rx) = subscriber(9);
    manager.add_sender_to_channel("lobby".to_string(), late);
    manager.broadcast_message("lobby".to_string(), "d".to_string(), "four".to_string());
    assert_eq!(
        received(&mut rx),
        vec![
            format!("a [{}]: one", clock(stamps[0])),
            format!("b [{}]: two", clock(stamps[1])),
            format!("c [{}]: three", clock(stamps[2])),
            "d: four".to_string(),
        ]
    );
}

#[test]
fn history_keeps_sender_content_and_order() {
    let mut manager = ChannelManager::new();
    manager.get_or_create_channel("lobby".to_string());
    manager.broadcast_message("lobby".to_string(), "a".to_string(), "one".to_string());
    manager.broadcast_message("lobby".to_string(), "b".to_string(), "two: 2".to_string());
    let room = manager.channel(&"lobby".to_string()).unwrap();
    let history = room.history();
    assert_eq!(history.len(), 2);
    assert_eq!(history[0].sender(), "a");
    assert_eq!(history[0].content(), "one");
    assert_eq!(history[1].sender(), "b");
    assert_eq!(history[1].content(), "two: 2");
    assert!(history[0].timestamp() <= history[1].timestamp());
    assert!(history[0].timestamp() > 1_600_000_000);
}

#[test]
fn every_subscriber_receives_every_broadcast_once_and_in_order() {
    let mut manager = ChannelManager::new();
    manager.get_or_create_channel("lobby".to_string());
    let mut receivers = Vec::new();
    for id in 0..5u64 {
        let (handle, rx) = subscriber(id);
        manager.add_sender_to_channel("lobby".to_string(), handle);
        receivers.push(rx);
    }
    manager.broadcast_message("lobby".to_string(), "a".to_string(), "one".to_string());
    manager.broadcast_message("lobby".to_string(), "b".to_string(), "two".to_string());
    manager.broadcast_message("lobby".to_string(), "a".to_string(), "three".to_string());
    for rx in receivers.iter_mut() {
        assert_eq!(
            received(rx),
            vec!["a: one".to_string(), "b: two".to_string(), "a: three".to_string()]
        );
    }
    assert_eq!(ids(&manager, "lobby"), vec![0, 1, 2, 3, 4]);
}

#[test]
fn broadcast_to_a_missing_room_does_nothing() {
    let mut manager = ChannelManager::new();
    manager.get_or_create_channel("lobby".to_string());
    let (alice, mut rx) = subscriber(1);
    manager.add_sender_to_channel("lobby".to_string(), alice);
    manager.broadcast_message("nowhere".to_string(), "bob".to_string(), "hello".to_string());
    assert_eq!(manager.get_active_rooms(), vec!["lobby".to_string()]);
    assert!(manager.channel(&"nowhere".to_string()).is_none());
    assert_eq!(received(&mut rx), Vec::<String>::new());
    assert_eq!(manager.channel(&"lobby".to_string()).unwrap().history().len(), 0);
}

#[test]
fn broadcast_reaches_only_its_room() {
    let mut manager = ChannelManager::new();
    manager.get_or_create_channel("a".to_string());
    manager.get_or_create_channel("b".to_string());
    let (in_a, mut rx_a) = subscriber(1);
    let (in_b, mut rx_b) = subscriber(2);
    manager.add_sender_to_channel("a".to_string(), in_a);
    manager.add_sender_to_channel("b".to_string(), in_b);
    manager.broadcast_message("a".to_string(), "x".to_string(), "for a".to_string());
    assert_eq!(received(&mut rx_a), vec!["x: for a".to_string()]);
    assert_eq!(received(&mut rx_b), Vec::<String>::new());
    assert_eq!(manager.channel(&"b".to_string()).unwrap().history().len(), 0);
}

#[test]
fn a_closed_queue_is_dropped_by_the_next_broadcast() {
    let mut manager = ChannelManager::new();
    manager.get_or_create_channel("lobby".to_string());
    let (a, mut rx_a) = subscriber(1);
    let (b, rx_b) = subscriber(2);
    let (c, mut rx_c) = subscriber(3);
    manager.add_sender_to_channel("lobby".to_string(), a);
    manager.add_sender_to_channel("lobby".to_string(), b);
    manager.add_sender_to_channel("lobby".to_string(), c);
    drop(rx_b);
    assert_eq!(ids(&manager, "lobby"), vec![1, 2, 3]);
    manager.broadcast_message("lobby".to_string(), "x".to_string(), "y".to_string());
    assert_eq!(ids(&manager, "lobby"), vec![1, 3]);
    assert_eq!(received(&mut rx_a), vec!["x: y".to_string()]);
    assert_eq!(received(&mut rx_c), vec!["x: y".to_string()]);
    assert_eq!(manager.channel(&"lobby".to_string()).unwrap().history().len(), 1);
}

#[test]
fn a_room_outlives_its_last_subscriber() {
    let mut manager = ChannelManager::new();
    manager.get_or_create_channel("lobby".to_string());
    let (a, rx) = subscriber(1);
    manager.add_sender_to_channel("lobby".to_string(), a);
    drop(rx);
    manager.broadcast_message("lobby".to_string(), "x".to_string(), "y".to_string());
    assert_eq!(ids(&manager, "lobby"), Vec::<u64>::new());
    assert_eq!(manager.get_active_rooms(), vec!["lobby".to_string()]);
}

#[test]
fn joining_with_a_closed_queue_subscribes_without_a_panic() {
    let mut manager = ChannelManager::new();
    manager.get_or_create_channel("lobby".to_string());
    manager.broadcast_message("lobby".to_string(), "a".to_string(), "one".to_string());
    manager.broadcast_message("lobby".to_string(), "a".to_string(), "two".to_string());
    let (late, rx) = subscriber(4);
    drop(rx);
    manager.add_sender_to_channel("lobby".to_string(), late);
    assert_eq!(ids(&manager, "lobby"), vec![4]);
    manager.broadcast_message("lobby".to_string(), "a".to_string(), "three".to_string());
    assert_eq!(ids(&manager, "lobby"), Vec::<u64>::new());
}

#[test]
fn a_handle_may_be_subscribed_to_several_rooms() {
    let mut manager = ChannelManager::new();
    manager.get_or_create_channel("a".to_string());
    manager.get_or_create_channel("b".to_string());
    let (me, mut rx) = subscriber(1);
    manager.add_sender_to_channel("a".to_string(), me.fresh_handle());
    manager.add_sender_to_channel("b".to_string(), me.fresh_handle());
    manager.broadcast_message("a".to_string(), "x".to_string(), "in a".to_string());
    manager.broadcast_message("b".to_string(), "y".to_string(), "in b".to_string());
    assert_eq!(received(&mut rx), vec!["x: in a".to_string(), "y: in b".to_string()]);
    assert_eq!(me.id(), 1);
}

#[test]
fn send_text_tells_whether_the_queue_took_the_frame() {
    let (mut open, mut rx) = subscriber(1);
    assert!(open.send_text("one"));
    assert!(open.send_text("two"));
    assert_eq!(received(&mut rx), vec!["one".to_string(), "two".to_string()]);
    drop(rx);
    assert!(!open.send_text("three"));
}

#[test]
fn many_broadcasts_reach_every_subscriber_once_and_in_order() {
    let mut manager = ChannelManager::new();
    manager.get_or_create_channel("lobby".to_string());
    let mut receivers = Vec::new();
    for id in 0..4u64 {
        let (handle, rx) = subscriber(id);
        manager.add_sender_to_channel("lobby".to_string(), handle);
        receivers.push(rx);
    }
    let mut expected = Vec::new();
    for k in 0..25 {
        let content = format!("message {}", k);
        manager.broadcast_message("lobby".to_string(), "a".to_string(), content.clone());
        expected.push(format!("a: {}", content));
    }
    for rx in receivers.iter_mut() {
        assert_eq!(received(rx), expected);
    }
    assert_eq!(ids(&manager, "lobby"), vec![0, 1, 2, 3]);
    assert_eq!(manager.channel(&"lobby".to_string()).unwrap().history().len(), 25);
}

#[test]
fn the_clock_is_read_at_each_broadcast() {
    let mut manager = ChannelManager::new();
    manager.get_or_create_channel("lobby".to_string());
    manager.broadcast_message("lobby".to_string(), "a".to_string(), "one".to_string());
    let stamp = manager.channel(&"lobby".to_string()).unwrap().history()[0].timestamp();
    let now = std::time::SystemTime::now()
        .duration_since(std::time::UNIX_EPOCH)
        .unwrap()
        .as_secs() as i64;
    assert!(stamp <= now);
    assert!(now - stamp < 60);
}
