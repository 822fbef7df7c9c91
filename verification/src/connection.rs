//! One connection: the room it tracks, and what each inbound frame does to
//! it and to the registry.
//!
//! A connection is idle or in a room. It tracks one room only: entering a
//! second room leaves the handle subscribed to the first, and only the
//! tracked room is left when the connection ends. A handle left behind in
//! another room is dropped from it by the first broadcast that finds its
//! queue closed.
//!
//! A connection answers no frame: what reaches its client comes through the
//! handles that it has subscribed to rooms, never through its own.

use crate::manager::{ChannelManager, ManagerView};
use crate::protocol::{parse, parse_command, Command, CommandView};
use crate::subscriber::{Subscriber, SubscriberView};
use crate::text::{join_strings, joined_strings};
use vstd::prelude::*;
use vstd::string::*;

verus! {

/// A connection as the contracts see it.
pub struct ConnectionView {
    /// The identity of the connection's subscriber handle.
    pub id: u64,
    /// The name of the tracked room; empty while the connection is idle.
    pub current_channel: Seq<char>,
    /// The texts that the outbound queue has taken through the connection's
    /// own handle, oldest first. The rooms send through handles of their
    /// own; the connection itself sends nothing.
    pub sent: Seq<Seq<char>>,
    /// Whether the outbound queue has refused a text that was offered
    /// through the connection's own handle.
    pub refused: bool,
}

impl ConnectionView {
    /// Whether the connection tracks no room.
    pub open spec fn is_idle(self) -> bool {
        self.current_channel.len() == 0
    }

    /// The handle that the connection subscribes when it enters a room.
    pub open spec fn handle(self) -> SubscriberView {
        SubscriberView::unused(self.id)
    }

    /// The connection tracking the room called `name`.
    pub open spec fn tracking(self, name: Seq<char>) -> ConnectionView {
        ConnectionView {
            id: self.id,
            current_channel: name,
            sent: self.sent,
            refused: self.refused,
        }
    }

    /// The connection tracking no room.
    pub open spec fn idle(self) -> ConnectionView {
        ConnectionView {
            id: self.id,
            current_channel: Seq::empty(),
            sent: self.sent,
            refused: self.refused,
        }
    }
}

/// Whether the connection `after` and the registry `manager_after` are what
/// `before` and `manager` may become by `command`; `None` stands for a frame
/// that carries no command.
pub open spec fn steps_to(
    before: ConnectionView,
    manager: ManagerView,
    command: Option<CommandView>,
    after: ConnectionView,
    manager_after: ManagerView,
) -> bool {
    match command {
        Some(CommandView::CreateRoom { name }) | Some(CommandView::JoinRoom { name }) => {
            &&& after == before.tracking(name)
            &&& manager.ensure(name).joins_to(manager_after, name, before.handle())
        },
        Some(CommandView::LeaveRoom { name }) => {
            &&& after == before.idle()
            &&& manager_after == manager.leave(name, before.id)
        },
        Some(CommandView::RoomMsg { room, sender, content }) => {
            &&& after == before
            &&& manager.broadcasts_to(manager_after, room, sender, content)
        },
        None => after == before && manager_after == manager,
    }
}

/// The registry after the connection `before` has ended: its handle has left
/// the tracked room, if it tracked one.
pub open spec fn closed(before: ConnectionView, manager: ManagerView) -> ManagerView {
    if before.is_idle() {
        manager
    } else {
        manager.leave(before.current_channel, before.id)
    }
}

/// The frame that tells a new client which rooms exist:
/// `ROOM_LIST:<names, separated by commas>`.
pub open spec fn room_list_text(manager: ManagerView) -> Seq<char> {
    "ROOM_LIST:"@ + joined_strings(manager.names(), ","@)
}

/// What the transport hands to the reader of a connection.
pub enum Frame {
    /// A text frame.
    Text(String),
    /// A frame that is neither text nor the end of the connection.
    Other,
    /// A close frame, a read error, or the end of the stream.
    Closed,
}

/// The state of one connection.
pub struct Connection {
    subscriber: Subscriber,
    current_channel: String,
}

impl View for Connection {
    type V = ConnectionView;

    closed spec fn view(&self) -> ConnectionView {
        ConnectionView {
            id: self.subscriber@.id,
            current_channel: self.current_channel@,
            sent: self.subscriber@.enqueued,
            refused: self.subscriber@.refused,
        }
    }
}

impl Connection {
    /// An idle connection whose outbound queue is that of `subscriber`.
    pub fn new(subscriber: Subscriber) -> (connection: Connection)
        ensures
            connection@ == (ConnectionView {
                id: subscriber@.id,
                current_channel: Seq::empty(),
                sent: subscriber@.enqueued,
                refused: subscriber@.refused,
            }),
    {
        Connection { subscriber, current_channel: String::new() }
    }

    /// The name of the tracked room; empty while the connection is idle.
    pub fn current_channel(&self) -> (name: &str)
        ensures
            name@ == self@.current_channel,
    {
        self.current_channel.as_str()
    }

    /// Subscribes the connection to the room called `name`, creating the room
    /// if need be, and tracks it.
    fn enter(&mut self, manager: &mut ChannelManager, name: String)
        ensures
            final(manager)@.wf(),
            final(self)@ == old(self)@.tracking(name@),
            old(manager)@.ensure(name@).joins_to(final(manager)@, name@, old(self)@.handle()),
    {
        manager.get_or_create_channel(name.clone());
        manager.add_sender_to_channel(name.clone(), self.subscriber.fresh_handle());
        self.current_channel = name;
    }

    /// Carries out the command of the text frame `text`. A frame that
    /// carries no command changes nothing.
    pub fn handle_text(&mut self, manager: &mut ChannelManager, text: &str)
        ensures
            old(manager)@.wf(),
            final(manager)@.wf(),
            steps_to(old(self)@, old(manager)@, parse(text@), final(self)@, final(manager)@),
    {
        proof {
            use_type_invariant(&*manager);
        }
        match parse_command(text) {
            Some(Command::CreateRoom { name }) => {
                self.enter(manager, name);
            },
            Some(Command::JoinRoom { name }) => {
                self.enter(manager, name);
            },
            Some(Command::LeaveRoom { name }) => {
                manager.remove_sender_from_channel(name, &self.subscriber);
                self.current_channel = String::new();
            },
            Some(Command::RoomMsg { room, sender, content }) => {
                manager.broadcast_message(room, sender, content);
            },
            None => {},
        }
    }

    /// Ends the connection: its handle leaves the tracked room, if it tracks
    /// one, and the connection is idle afterwards.
    pub fn close(&mut self, manager: &mut ChannelManager)
        ensures
            old(manager)@.wf(),
            final(manager)@.wf(),
            final(self)@ == old(self)@.idle(),
            final(manager)@ == closed(old(self)@, old(manager)@),
    {
        proof {
            use_type_invariant(&*manager);
        }
        if !self.current_channel.as_str().is_empty() {
            let mut name = String::new();
            std::mem::swap(&mut self.current_channel, &mut name);
            manager.remove_sender_from_channel(name, &self.subscriber);
        }
        assert(self@.current_channel =~= Seq::empty());
    }

    /// Takes one frame from the transport. Returns whether the reader goes
    /// on: a text frame is carried out, a closing frame ends the connection,
    /// any other frame is passed over.
    pub fn handle_frame(&mut self, manager: &mut ChannelManager, frame: Frame) -> (reading: bool)
        ensures
            old(manager)@.wf(),
            final(manager)@.wf(),
            match frame {
                Frame::Text(text) => reading && steps_to(
                    old(self)@,
                    old(manager)@,
                    parse(text@),
                    final(self)@,
                    final(manager)@,
                ),
                Frame::Other => reading && final(self)@ == old(self)@ && final(manager)@ == old(
                    manager,
                )@,
                Frame::Closed => !reading && final(self)@ == old(self)@.idle() && final(manager)@
                    == closed(old(self)@, old(manager)@),
            },
    {
        proof {
            use_type_invariant(&*manager);
        }
        match frame {
            Frame::Text(text) => {
                self.handle_text(manager, text.as_str());
                true
            },
            Frame::Other => true,
            Frame::Closed => {
                self.close(manager);
                false
            },
        }
    }
}

/// The frame that tells a new client which rooms exist.
pub fn room_list(manager: &ChannelManager) -> (text: String)
    ensures
        manager@.wf(),
        text@ == room_list_text(manager@),
{
    let names = manager.get_active_rooms();
    let mut text = "ROOM_LIST:".to_owned();
    text.append(join_strings(&names, ",").as_str());
    text
}

} // verus!
