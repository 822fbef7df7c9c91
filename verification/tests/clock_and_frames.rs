use chat_relay::channel::Channel;
use chat_relay::clock::{second_of_day, time_of_day_text};
use chat_relay::message::{format_live, ChatMessage};

#[test]
fn second_of_day_at_the_epoch_is_zero() {
    assert_eq!(second_of_day(0), 0);
}

#[test]
fn second_of_day_wraps_at_midnight() {
    assert_eq!(second_of_day(86_399), 86_399);
    assert_eq!(second_of_day(86_400), 0);
    assert_eq!(second_of_day(86_401), 1);
}

#[test]
fn second_of_day_before_the_epoch_counts_from_midnight() {
    assert_eq!(second_of_day(-1), 86_399);
    assert_eq!(second_of_day(-86_400), 0);
    assert_eq!(second_of_day(-86_401), 86_399);
}

#[test]
fn second_of_day_at_the_ends_of_the_range() {
    assert_eq!(second_of_day(i64::MAX), (i64::MAX.rem_euclid(86_400)) as u32);
    assert_eq!(second_of_day(i64::MIN), (i64::MIN.rem_euclid(86_400)) as u32);
}

#[test]
fn time_of_day_is_printed_as_three_padded_fields() {
    assert_eq!(time_of_day_text(0), "00:00:00");
    assert_eq!(time_of_day_text(45_296), "12:34:56");
    assert_eq!(time_of_day_text(86_399), "23:59:59");
    assert_eq!(time_of_day_text(3_600 + 60 + 1), "01:01:01");
    assert_eq!(time_of_day_text(9 * 3_600 + 5 * 60 + 7), "09:05:07");
}

#[test]
fn time_of_day_ignores_the_date() {
    // 2015-05-15 00:00:00 UTC, and half past ten that evening.
    assert_eq!(time_of_day_text(1_431_648_000), "00:00:00");
    assert_eq!(time_of_day_text(1_431_648_000 + 22 * 3_600 + 30 * 60), "22:30:00");
    assert_eq!(time_of_day_text(-1), "23:59:59");
}

#[test]
fn time_of_day_is_never_the_number_of_seconds() {
    // A printer that handed its argument back would print "45296".
    let text = time_of_day_text(45_296);
    assert_eq!(text.len(), 8);
    assert_ne!(text, "45296");
}

#[test]
fn live_frame_is_sender_colon_space_content() {
    assert_eq!(format_live("alice", "hello"), "alice: hello");
    assert_eq!(format_live("", ""), ": ");
    assert_eq!(format_live("bob", "a:b: c"), "bob: a:b: c");
}

#[test]
fn message_keeps_what_it_was_made_of() {
    let message = ChatMessage::new("alice".to_string(), "hello".to_string(), 45_296);
    assert_eq!(message.sender(), "alice");
    assert_eq!(message.content(), "hello");
    assert_eq!(message.timestamp(), 45_296);
    assert_eq!(message.to_live_text(), "alice: hello");
}

#[test]
fn history_frame_carries_the_time_of_day() {
    let message = ChatMessage::new("alice".to_string(), "hello".to_string(), 45_296);
    assert_eq!(message.to_history_text(), "alice [12:34:56]: hello");
}

#[test]
fn history_frame_of_a_message_before_the_epoch() {
    let message = ChatMessage::new("bob".to_string(), "x".to_string(), -1);
    assert_eq!(message.to_history_text(), "bob [23:59:59]: x");
}

#[test]
fn channel_formats_a_message_as_its_history_frame() {
    let channel = Channel::new("lobby".to_string());
    let message = ChatMessage::new("carol".to_string(), "hi: there".to_string(), 3_661);
    assert_eq!(channel.format_message(&message), "carol [01:01:01]: hi: there");
}

#[test]
fn frames_keep_characters_outside_ascii() {
    let message = ChatMessage::new("zoë".to_string(), "grüße ☕".to_string(), 0);
    assert_eq!(message.to_live_text(), "zoë: grüße ☕");
    assert_eq!(message.to_history_text(), "zoë [00:00:00]: grüße ☕");
}
