//! The commands that a client sends, one per text frame.
//!
//! | frame                               | command                    |
//! |-------------------------------------|----------------------------|
//! | `CREATE_ROOM:<name>`                | create and enter `<name>`  |
//! | `JOIN_ROOM:<name>`                  | create and enter `<name>`  |
//! | `LEAVE_ROOM:<name>`                 | leave `<name>`             |
//! | `ROOM_MSG:<room>:<sender>:<content>`| broadcast to `<room>`      |
//!
//! A room name is all that follows the prefix, colons included. In
//! `ROOM_MSG` the first two colons after the prefix separate the fields, so
//! only the content may hold a colon.

use crate::text::{
    chars_of, find_colon, is_first_colon, lemma_split_at_colon, split_at_colon, starts_with,
    substring,
};
use vstd::prelude::*;
use vstd::string::*;

verus! {

/// The prefix of a frame that creates a room.
pub open spec fn create_prefix() -> Seq<char> {
    "CREATE_ROOM:"@
}

/// The prefix of a frame that joins a room.
pub open spec fn join_prefix() -> Seq<char> {
    "JOIN_ROOM:"@
}

/// The prefix of a frame that leaves a room.
pub open spec fn leave_prefix() -> Seq<char> {
    "LEAVE_ROOM:"@
}

/// The prefix of a frame that carries a message.
pub open spec fn message_prefix() -> Seq<char> {
    "ROOM_MSG:"@
}

/// A command as the contracts see it.
pub enum CommandView {
    CreateRoom { name: Seq<char> },
    JoinRoom { name: Seq<char> },
    LeaveRoom { name: Seq<char> },
    RoomMsg { room: Seq<char>, sender: Seq<char>, content: Seq<char> },
}

/// What follows the prefix of a message frame, cut into room, sender and
/// content at its first two colons. `None` if it holds fewer than two.
pub open spec fn message_fields(rest: Seq<char>) -> Option<CommandView> {
    match split_at_colon(rest) {
        Some((room, tail)) => match split_at_colon(tail) {
            Some((sender, content)) => Some(CommandView::RoomMsg { room, sender, content }),
            None => None,
        },
        None => None,
    }
}

/// The command that the frame `text` carries. `None` if the frame begins with
/// none of the four prefixes, or is a message frame with fewer than three
/// fields.
pub open spec fn parse(text: Seq<char>) -> Option<CommandView> {
    if create_prefix().is_prefix_of(text) {
        Some(CommandView::CreateRoom { name: text.skip(create_prefix().len() as int) })
    } else if join_prefix().is_prefix_of(text) {
        Some(CommandView::JoinRoom { name: text.skip(join_prefix().len() as int) })
    } else if leave_prefix().is_prefix_of(text) {
        Some(CommandView::LeaveRoom { name: text.skip(leave_prefix().len() as int) })
    } else if message_prefix().is_prefix_of(text) {
        message_fields(text.skip(message_prefix().len() as int))
    } else {
        None
    }
}

/// A command of a client.
pub enum Command {
    /// Create the room if there is none of that name, and enter it.
    CreateRoom { name: String },
    /// The same as `CreateRoom`.
    JoinRoom { name: String },
    /// Leave the room.
    LeaveRoom { name: String },
    /// Broadcast `content` from `sender` to `room`.
    RoomMsg { room: String, sender: String, content: String },
}

impl View for Command {
    type V = CommandView;

    open spec fn view(&self) -> CommandView {
        match self {
            Command::CreateRoom { name } => CommandView::CreateRoom { name: name@ },
            Command::JoinRoom { name } => CommandView::JoinRoom { name: name@ },
            Command::LeaveRoom { name } => CommandView::LeaveRoom { name: name@ },
            Command::RoomMsg { room, sender, content } => CommandView::RoomMsg {
                room: room@,
                sender: sender@,
                content: content@,
            },
        }
    }
}

/// The view of a command that may be absent.
pub open spec fn command_view(command: Option<Command>) -> Option<CommandView> {
    match command {
        Some(command) => Some(command@),
        None => None,
    }
}

/// Reads the fields of a message frame: `chars` are the characters of
/// `text`, and the fields begin at `from`.
fn parse_message(text: &str, chars: &Vec<char>, from: usize) -> (command: Option<Command>)
    requires
        chars@ == text@,
        from <= chars.len(),
    ensures
        command_view(command) == message_fields(text@.skip(from as int)),
{
    let ghost rest = text@.skip(from as int);
    proof {
        lemma_split_at_colon(rest);
    }
    match find_colon(chars, from) {
        None => None,
        Some(first) => {
            let ghost tail = text@.skip(first + 1);
            proof {
                assert(is_first_colon(rest, first - from));
                assert(rest.take(first - from) =~= text@.subrange(from as int, first as int));
                assert(rest.skip(first - from + 1) =~= tail);
                lemma_split_at_colon(tail);
            }
            match find_colon(chars, first + 1) {
                None => None,
                Some(second) => {
                    proof {
                        assert(is_first_colon(tail, second - (first + 1)));
                        assert(tail.take(second - (first + 1)) =~= text@.subrange(
                            first + 1,
                            second as int,
                        ));
                        assert(tail.skip(second - (first + 1) + 1) =~= text@.subrange(
                            second + 1,
                            text@.len() as int,
                        ));
                    }
                    Some(
                        Command::RoomMsg {
                            room: substring(text, from, first),
                            sender: substring(text, first + 1, second),
                            content: substring(text, second + 1, chars.len()),
                        },
                    )
                },
            }
        },
    }
}

/// Reads the command that the frame `text` carries.
pub fn parse_command(text: &str) -> (command: Option<Command>)
    ensures
        command_view(command) == parse(text@),
{
    let chars = chars_of(text);
    let create = chars_of("CREATE_ROOM:");
    let join = chars_of("JOIN_ROOM:");
    let leave = chars_of("LEAVE_ROOM:");
    let message = chars_of("ROOM_MSG:");
    if starts_with(&chars, &create) {
        assert(text@.skip(create@.len() as int) =~= text@.subrange(
            create@.len() as int,
            text@.len() as int,
        ));
        Some(Command::CreateRoom { name: substring(text, create.len(), chars.len()) })
    } else if starts_with(&chars, &join) {
        assert(text@.skip(join@.len() as int) =~= text@.subrange(
            join@.len() as int,
            text@.len() as int,
        ));
        Some(Command::JoinRoom { name: substring(text, join.len(), chars.len()) })
    } else if starts_with(&chars, &leave) {
        assert(text@.skip(leave@.len() as int) =~= text@.subrange(
            leave@.len() as int,
            text@.len() as int,
        ));
        Some(Command::LeaveRoom { name: substring(text, leave.len(), chars.len()) })
    } else if starts_with(&chars, &message) {
        parse_message(text, &chars, message.len())
    } else {
        None
    }
}

} // verus!
