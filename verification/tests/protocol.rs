use chat_relay::protocol::{parse_command, Command};
use chat_relay::text::{chars_of, find_colon, join_strings, starts_with, substring};

fn room_msg(text: &str) -> Option<(String, String, String)> {
    match parse_command(text) {
        Some(Command::RoomMsg { room, sender, content }) => Some((room, sender, content)),
        _ => None,
    }
}

#[test]
fn create_room_takes_the_whole_remainder_as_name() {
    match parse_command("CREATE_ROOM:lobby") {
        Some(Command::CreateRoom { name }) => assert_eq!(name, "lobby"),
        _ => panic!("not a create command"),
    }
    match parse_command("CREATE_ROOM:a:b") {
        Some(Command::CreateRoom { name }) => assert_eq!(name, "a:b"),
        _ => panic!("not a create command"),
    }
}

#[test]
fn join_room_takes_the_whole_remainder_as_name() {
    match parse_command("JOIN_ROOM:lobby") {
        Some(Command::JoinRoom { name }) => assert_eq!(name, "lobby"),
        _ => panic!("not a join command"),
    }
}

#[test]
fn leave_room_takes_the_whole_remainder_as_name() {
    match parse_command("LEAVE_ROOM:lobby") {
        Some(Command::LeaveRoom { name }) => assert_eq!(name, "lobby"),
        _ => panic!("not a leave command"),
    }
}

#[test]
fn a_name_may_be_empty() {
    match parse_command("CREATE_ROOM:") {
        Some(Command::CreateRoom { name }) => assert_eq!(name, ""),
        _ => panic!("not a create command"),
    }
    match parse_command("LEAVE_ROOM:") {
        Some(Command::LeaveRoom { name }) => assert_eq!(name, ""),
        _ => panic!("not a leave command"),
    }
}

#[test]
fn room_msg_has_three_fields() {
    assert_eq!(
        room_msg("ROOM_MSG:lobby:alice:hello"),
        Some(("lobby".to_string(), "alice".to_string(), "hello".to_string()))
    );
}

#[test]
fn room_msg_content_may_hold_colons() {
    assert_eq!(
        room_msg("ROOM_MSG:lobby:alice:see: http://example.org"),
        Some(("lobby".to_string(), "alice".to_string(), "see: http://example.org".to_string()))
    );
}

#[test]
fn room_msg_fields_may_be_empty() {
    assert_eq!(room_msg("ROOM_MSG:::"), Some(("".to_string(), "".to_string(), "".to_string())));
    assert_eq!(
        room_msg("ROOM_MSG::::"),
        Some(("".to_string(), "".to_string(), ":".to_string()))
    );
}

#[test]
fn room_msg_with_one_field_is_no_command() {
    assert!(parse_command("ROOM_MSG:onlyroom").is_none());
}

#[test]
fn room_msg_with_two_fields_is_no_command() {
    assert!(parse_command("ROOM_MSG:lobby:alice").is_none());
    assert!(parse_command("ROOM_MSG:").is_none());
    assert!(parse_command("ROOM_MSG::x").is_none());
    assert!(parse_command("ROOM_MSG::").is_none());
}

#[test]
fn unknown_frames_are_no_command() {
    assert!(parse_command("").is_none());
    assert!(parse_command("hello").is_none());
    assert!(parse_command("CREATE_ROOM").is_none());
    assert!(parse_command("create_room:lobby").is_none());
    assert!(parse_command(" CREATE_ROOM:lobby").is_none());
    assert!(parse_command("ROOM_LIST:a,b").is_none());
}

#[test]
fn names_keep_characters_outside_ascii() {
    match parse_command("JOIN_ROOM:café ☕") {
        Some(Command::JoinRoom { name }) => assert_eq!(name, "café ☕"),
        _ => panic!("not a join command"),
    }
    assert_eq!(
        room_msg("ROOM_MSG:café:zoë:grüße: ☕"),
        Some(("café".to_string(), "zoë".to_string(), "grüße: ☕".to_string()))
    );
}

#[test]
fn chars_of_lists_every_character() {
    assert_eq!(chars_of("a☕b"), vec!['a', '☕', 'b']);
    assert_eq!(chars_of(""), Vec::<char>::new());
}

#[test]
fn starts_with_compares_the_beginning() {
    assert!(starts_with(&chars_of("abc"), &chars_of("ab")));
    assert!(starts_with(&chars_of("abc"), &chars_of("")));
    assert!(starts_with(&chars_of("abc"), &chars_of("abc")));
    assert!(!starts_with(&chars_of("abc"), &chars_of("abcd")));
    assert!(!starts_with(&chars_of("abc"), &chars_of("b")));
}

#[test]
fn find_colon_gives_the_first_at_or_after_the_start() {
    let chars = chars_of("a:b:c");
    assert_eq!(find_colon(&chars, 0), Some(1));
    assert_eq!(find_colon(&chars, 1), Some(1));
    assert_eq!(find_colon(&chars, 2), Some(3));
    assert_eq!(find_colon(&chars, 4), None);
    assert_eq!(find_colon(&chars, 5), None);
    assert_eq!(find_colon(&chars, 6), None);
    assert_eq!(find_colon(&chars, usize::MAX), None);
}

#[test]
fn substring_counts_characters_not_bytes() {
    assert_eq!(substring("a☕bc", 1, 3), "☕b");
    assert_eq!(substring("abc", 0, 0), "");
    assert_eq!(substring("abc", 3, 3), "");
    assert_eq!(substring("abc", 0, 3), "abc");
}

#[test]
fn join_strings_puts_the_separator_between_parts() {
    assert_eq!(join_strings(&vec![], ","), "");
    assert_eq!(join_strings(&vec!["a".to_string()], ","), "a");
    let parts = vec!["a".to_string(), "b".to_string(), "c".to_string()];
    assert_eq!(join_strings(&parts, ","), "a,b,c");
    assert_eq!(join_strings(&vec!["".to_string(), "".to_string()], ","), ",");
}
