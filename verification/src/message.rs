//! Chat messages and the two forms in which they reach a subscriber: live,
//! and replayed from a room's history.

use crate::clock::{clock_text, spec_second_of_day, time_of_day_text};
use vstd::prelude::*;
use vstd::string::*;

verus! {

/// A message as the contracts see it.
pub struct MessageView {
    /// The name that the sending client gave for itself.
    pub sender: Seq<char>,
    /// The text of the message.
    pub content: Seq<char>,
    /// When the relay accepted the message, in seconds since the Unix epoch.
    pub timestamp: int,
}

/// The frame that carries a live broadcast: `<sender>: <content>`.
pub open spec fn live_text(sender: Seq<char>, content: Seq<char>) -> Seq<char> {
    sender + seq![':', ' '] + content
}

/// The frame that replays a stored message:
/// `<sender> [<HH:MM:SS>]: <content>`, the time of day being that of the
/// message's timestamp in UTC.
pub open spec fn history_text(message: MessageView) -> Seq<char> {
    message.sender + seq![' ', '['] + clock_text(spec_second_of_day(message.timestamp)) + seq![
        ']',
        ':',
        ' ',
    ] + message.content
}

/// The replay frames of a whole history, oldest first.
pub open spec fn history_texts(messages: Seq<MessageView>) -> Seq<Seq<char>> {
    Seq::new(messages.len(), |i: int| history_text(messages[i]))
}

/// The live frames of a run of messages, in their order.
pub open spec fn live_texts(messages: Seq<MessageView>) -> Seq<Seq<char>> {
    Seq::new(messages.len(), |i: int| live_text(messages[i].sender, messages[i].content))
}

/// A message stored in a room's history.
pub struct ChatMessage {
    sender: String,
    content: String,
    timestamp: i64,
}

impl View for ChatMessage {
    type V = MessageView;

    closed spec fn view(&self) -> MessageView {
        MessageView {
            sender: self.sender@,
            content: self.content@,
            timestamp: self.timestamp as int,
        }
    }
}

impl ChatMessage {
    /// A message from `sender` saying `content`, accepted at `timestamp`.
    pub fn new(sender: String, content: String, timestamp: i64) -> (message: ChatMessage)
        ensures
            message@ == (MessageView {
                sender: sender@,
                content: content@,
                timestamp: timestamp as int,
            }),
    {
        ChatMessage { sender, content, timestamp }
    }

    /// The name that the sending client gave for itself.
    pub fn sender(&self) -> (sender: &str)
        ensures
            sender@ == self@.sender,
    {
        self.sender.as_str()
    }

    /// The text of the message.
    pub fn content(&self) -> (content: &str)
        ensures
            content@ == self@.content,
    {
        self.content.as_str()
    }

    /// When the relay accepted the message, in seconds since the Unix epoch.
    pub fn timestamp(&self) -> (timestamp: i64)
        ensures
            timestamp as int == self@.timestamp,
    {
        self.timestamp
    }

    /// The frame that carries this message as a live broadcast.
    pub fn to_live_text(&self) -> (text: String)
        ensures
            text@ == live_text(self@.sender, self@.content),
    {
        format_live(self.sender.as_str(), self.content.as_str())
    }

    /// The frame that replays this message from a history.
    pub fn to_history_text(&self) -> (text: String)
        ensures
            text@ == history_text(self@),
    {
        let clock = time_of_day_text(self.timestamp);
        let mut text = self.sender.clone();
        proof {
            reveal_strlit(" [");
            reveal_strlit("]: ");
            assert(" ["@ =~= seq![' ', '[']);
            assert("]: "@ =~= seq![']', ':', ' ']);
        }
        text.append(" [");
        text.append(clock.as_str());
        text.append("]: ");
        text.append(self.content.as_str());
        text
    }
}

/// The frame that carries a live broadcast of `content` from `sender`.
pub fn format_live(sender: &str, content: &str) -> (text: String)
    ensures
        text@ == live_text(sender@, content@),
{
    let mut text = sender.to_owned();
    proof {
        reveal_strlit(": ");
        assert(": "@ =~= seq![':', ' ']);
    }
    text.append(": ");
    text.append(content);
    text
}

} // verus!
