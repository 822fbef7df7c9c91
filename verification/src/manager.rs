//! The registry of rooms, and the five operations that connections perform
//! on it.

use crate::channel::{Channel, ChannelView};
use crate::clock::unix_now;
use crate::message::MessageView;
use crate::subscriber::{Subscriber, SubscriberView};
use crate::text::string_views;
use vstd::prelude::*;

verus! {

/// The registry as the contracts see it: its rooms, in the order in which
/// they were created.
pub struct ManagerView {
    pub channels: Seq<ChannelView>,
}

impl ManagerView {
    /// No two rooms have the same name.
    pub open spec fn wf(self) -> bool {
        forall|i: int, j: int|
            0 <= i < j < self.channels.len() ==> (#[trigger] self.channels[i]).name != (
            #[trigger] self.channels[j]).name
    }

    /// The names of the rooms, in the order in which they were created.
    pub open spec fn names(self) -> Seq<Seq<char>> {
        Seq::new(self.channels.len(), |i: int| self.channels[i].name)
    }

    /// Whether the room at `i` is called `name`.
    pub open spec fn named_at(self, name: Seq<char>, i: int) -> bool {
        0 <= i < self.channels.len() && self.channels[i].name == name
    }

    /// Whether there is a room called `name`.
    pub open spec fn has(self, name: Seq<char>) -> bool {
        exists|i: int| self.named_at(name, i)
    }

    /// Where the room called `name` stands, if there is one.
    pub open spec fn position(self, name: Seq<char>) -> int {
        choose|i: int| self.named_at(name, i)
    }

    /// The room called `name`, if there is one.
    pub open spec fn channel(self, name: Seq<char>) -> ChannelView {
        self.channels[self.position(name)]
    }

    /// The registry with the room called `name` replaced by `channel`.
    pub open spec fn with_channel(self, name: Seq<char>, channel: ChannelView) -> ManagerView {
        ManagerView { channels: self.channels.update(self.position(name), channel) }
    }

    /// The registry after a room called `name` was asked for: a new, empty
    /// room comes last if there was none of that name.
    pub open spec fn ensure(self, name: Seq<char>) -> ManagerView {
        if self.has(name) {
            self
        } else {
            ManagerView { channels: self.channels.push(ChannelView::empty(name)) }
        }
    }

    /// The registry after `sender` joined the room called `name` and its
    /// queue took the first `replayed` frames of the room's history. Nothing
    /// changes if there is no such room.
    pub open spec fn join(
        self,
        name: Seq<char>,
        sender: SubscriberView,
        replayed: int,
    ) -> ManagerView {
        if self.has(name) {
            self.with_channel(name, self.channel(name).joined(sender, replayed))
        } else {
            self
        }
    }

    /// The registry after the handles with identity `id` left the room called
    /// `name`. Nothing changes if there is no such room.
    pub open spec fn leave(self, name: Seq<char>, id: u64) -> ManagerView {
        if self.has(name) {
            self.with_channel(name, self.channel(name).left(id))
        } else {
            self
        }
    }

    /// The registry after `message` was broadcast to the room called `name`,
    /// `accepted` telling for each handle of the room whether its queue took
    /// the live frame. Nothing changes if there is no such room.
    pub open spec fn broadcast(
        self,
        name: Seq<char>,
        message: MessageView,
        accepted: Seq<bool>,
    ) -> ManagerView {
        if self.has(name) {
            self.with_channel(name, self.channel(name).published(message, accepted))
        } else {
            self
        }
    }

    /// The registry after each of `messages` was broadcast to the room called
    /// `name`, one after another, `accepted[k]` telling for each handle that
    /// the room then had whether its queue took the live frame of
    /// `messages[k]`.
    pub open spec fn broadcast_each(
        self,
        name: Seq<char>,
        messages: Seq<MessageView>,
        accepted: Seq<Seq<bool>>,
    ) -> ManagerView
        decreases messages.len(),
    {
        if messages.len() == 0 {
            self
        } else {
            self.broadcast_each(name, messages.drop_last(), accepted.drop_last()).broadcast(
                name,
                messages.last(),
                accepted.last(),
            )
        }
    }

    /// Whether `after` is what the registry may be once `sender` has joined
    /// the room called `name`: the handle is subscribed and its queue took
    /// some first part of the room's history.
    pub open spec fn joins_to(
        self,
        after: ManagerView,
        name: Seq<char>,
        sender: SubscriberView,
    ) -> bool {
        if self.has(name) {
            exists|replayed: int|
                0 <= replayed <= self.channel(name).messages.len() && after == #[trigger] self.join(
                    name,
                    sender,
                    replayed,
                )
        } else {
            after == self
        }
    }

    /// Whether `after` is what the registry may be once `content` from
    /// `sender_name` has been broadcast to the room called `name`: the
    /// message is stored under some timestamp, and each handle of the room
    /// either took the live frame or is gone.
    pub open spec fn broadcasts_to(
        self,
        after: ManagerView,
        name: Seq<char>,
        sender_name: Seq<char>,
        content: Seq<char>,
    ) -> bool {
        if self.has(name) {
            exists|timestamp: int, accepted: Seq<bool>|
                accepted.len() == self.channel(name).senders.len() && after
                    == #[trigger] self.broadcast(
                    name,
                    MessageView { sender: sender_name, content, timestamp },
                    accepted,
                )
        } else {
            after == self
        }
    }
}

/// Replacing a room by one of the same name keeps the names distinct.
pub proof fn lemma_update_keeps_names(manager: ManagerView, name: Seq<char>, channel: ChannelView)
    requires
        manager.wf(),
        manager.has(name),
        channel.name == name,
    ensures
        manager.with_channel(name, channel).wf(),
        manager.with_channel(name, channel).names() == manager.names(),
{
    let after = manager.with_channel(name, channel);
    assert(manager.named_at(name, manager.position(name)));
    assert forall|i: int, j: int| 0 <= i < j < after.channels.len() implies (
    #[trigger] after.channels[i]).name != (#[trigger] after.channels[j]).name by {
        assert(manager.channels[i].name != manager.channels[j].name);
    }
    assert(after.names() =~= manager.names());
}

/// In a registry with distinct names, a room stands where its name is found.
pub proof fn lemma_position(manager: ManagerView, name: Seq<char>, i: int)
    requires
        manager.wf(),
        manager.named_at(name, i),
    ensures
        manager.has(name),
        manager.position(name) == i,
        manager.channel(name) == manager.channels[i],
{
    let chosen = manager.position(name);
    assert(manager.named_at(name, chosen));
    if chosen < i {
        assert(manager.channels[chosen].name != manager.channels[i].name);
    } else if i < chosen {
        assert(manager.channels[i].name != manager.channels[chosen].name);
    }
}

/// Replacing the room called `name` by one of the same name puts that room
/// under the name and leaves every other room as it was.
pub proof fn lemma_with_channel(
    manager: ManagerView,
    name: Seq<char>,
    channel: ChannelView,
    other: Seq<char>,
)
    requires
        manager.wf(),
        manager.has(name),
        channel.name == name,
    ensures
        manager.with_channel(name, channel).wf(),
        manager.with_channel(name, channel).has(other) == manager.has(other),
        manager.with_channel(name, channel).channel(name) == channel,
        other != name && manager.has(other) ==> manager.with_channel(name, channel).channel(other)
            == manager.channel(other),
{
    let after = manager.with_channel(name, channel);
    let at = manager.position(name);
    lemma_update_keeps_names(manager, name, channel);
    assert(manager.named_at(name, at));
    assert(after.named_at(name, at));
    lemma_position(after, name, at);
    if manager.has(other) {
        let i = manager.position(other);
        assert(manager.named_at(other, i));
        assert(after.named_at(other, i));
        lemma_position(after, other, i);
    }
    if after.has(other) {
        let i = after.position(other);
        assert(after.named_at(other, i));
        assert(manager.named_at(other, i));
    }
}

/// A room that has been asked for is there, empty if it is new, and every
/// other room is as it was.
pub proof fn lemma_ensure(manager: ManagerView, name: Seq<char>, other: Seq<char>)
    requires
        manager.wf(),
    ensures
        manager.ensure(name).wf(),
        manager.ensure(name).has(name),
        manager.has(name) ==> manager.ensure(name) == manager,
        !manager.has(name) ==> manager.ensure(name).channel(name) == ChannelView::empty(name),
        other != name ==> manager.ensure(name).has(other) == manager.has(other),
        other != name && manager.has(other) ==> manager.ensure(name).channel(other)
            == manager.channel(other),
{
    let after = manager.ensure(name);
    if !manager.has(name) {
        let last = manager.channels.len() as int;
        assert forall|i: int, j: int| 0 <= i < j < after.channels.len() implies (
        #[trigger] after.channels[i]).name != (#[trigger] after.channels[j]).name by {
            if j < last {
                assert(manager.channels[i].name != manager.channels[j].name);
            } else {
                assert(!manager.named_at(name, i));
            }
        }
        assert(after.named_at(name, last));
        lemma_position(after, name, last);
        if manager.has(other) {
            let i = manager.position(other);
            assert(manager.named_at(other, i));
            assert(after.named_at(other, i));
            lemma_position(after, other, i);
        }
        if other != name && after.has(other) {
            let i = after.position(other);
            assert(after.named_at(other, i));
            assert(manager.named_at(other, i));
        }
    }
}

/// The views of a sequence of rooms.
pub open spec fn channel_views(channels: Seq<Channel>) -> Seq<ChannelView> {
    Seq::new(channels.len(), |i: int| channels[i]@)
}

/// The registry of rooms. A room lives from the first time it is asked for
/// and is never removed, also when its last subscriber has left.
pub struct ChannelManager {
    channels: Vec<Channel>,
}

impl View for ChannelManager {
    type V = ManagerView;

    closed spec fn view(&self) -> ManagerView {
        ManagerView { channels: channel_views(self.channels@) }
    }
}

impl ChannelManager {
    /// No two rooms of a registry have the same name.
    #[verifier::type_invariant]
    pub open spec fn names_are_distinct(self) -> bool {
        self@.wf()
    }

    /// A registry without rooms.
    pub fn new() -> (manager: ChannelManager)
        ensures
            manager@.channels == Seq::<ChannelView>::empty(),
            manager@.wf(),
    {
        let manager = ChannelManager { channels: Vec::new() };
        assert(manager@.channels =~= Seq::empty());
        manager
    }

    /// Where the room called `name` stands.
    fn find(&self, name: &String) -> (found: Option<usize>)
        ensures
            self@.wf(),
            match found {
                Some(i) => self@.named_at(name@, i as int) && self@.position(name@) == i,
                None => !self@.has(name@),
            },
    {
        proof {
            use_type_invariant(self);
        }
        let mut i: usize = 0;
        while i < self.channels.len()
            invariant
                i <= self.channels.len(),
                self@.wf(),
                forall|k: int| 0 <= k < i ==> !self@.named_at(name@, k),
            decreases self.channels.len() - i,
        {
            if self.channels[i].is_called(name) {
                assert(self@.named_at(name@, i as int));
                assert forall|k: int| self@.named_at(name@, k) implies k == i by {
                    if k < i {
                        assert(self@.channels[k].name != self@.channels[i as int].name);
                    } else if k > i {
                        assert(self@.channels[i as int].name != self@.channels[k].name);
                    }
                }
                return Some(i);
            }
            i += 1;
        }
        None
    }

    /// The room called `name`, if there is one.
    pub fn channel(&self, name: &String) -> (channel: Option<&Channel>)
        ensures
            self@.wf(),
            match channel {
                Some(channel) => self@.has(name@) && channel@ == self@.channel(name@),
                None => !self@.has(name@),
            },
    {
        match self.find(name) {
            Some(i) => Some(&self.channels[i]),
            None => None,
        }
    }

    /// Takes the rooms out of the registry, to be put back after a change.
    fn take_channels(&mut self) -> (channels: Vec<Channel>)
        ensures
            channel_views(channels@) == old(self)@.channels,
            final(self)@.channels == Seq::<ChannelView>::empty(),
    {
        let mut channels: Vec<Channel> = Vec::new();
        std::mem::swap(&mut self.channels, &mut channels);
        assert(self@.channels =~= Seq::empty());
        channels
    }

    /// Creates the room called `channel_name` unless there is one already.
    pub fn get_or_create_channel(&mut self, channel_name: String)
        ensures
            final(self)@ == old(self)@.ensure(channel_name@),
            final(self)@.wf(),
    {
        match self.find(&channel_name) {
            Some(_) => {},
            None => {
                let ghost before = self@;
                let mut channels = self.take_channels();
                channels.push(Channel::new(channel_name));
                assert(channel_views(channels@) =~= before.channels.push(
                    ChannelView::empty(channel_name@),
                ));
                assert forall|i: int, j: int| 0 <= i < j < channels@.len() implies (
                #[trigger] channel_views(channels@)[i]).name != (#[trigger] channel_views(
                    channels@,
                )[j]).name by {
                    if j < before.channels.len() {
                        assert(before.channels[i].name != before.channels[j].name);
                    } else {
                        assert(!before.named_at(channel_name@, i));
                    }
                }
                self.channels = channels;
            },
        }
    }

    /// Subscribes `sender` to the room called `channel_name` and replays the
    /// room's history to its queue, oldest message first, each message as
    /// `<sender> [<HH:MM:SS>]: <content>`. The replay stops at the first
    /// frame that the queue does not take. Does nothing if there is no such
    /// room.
    pub fn add_sender_to_channel(&mut self, channel_name: String, sender: Subscriber)
        ensures
            final(self)@.wf(),
            old(self)@.joins_to(final(self)@, channel_name@, sender@),
            !old(self)@.has(channel_name@) ==> final(self)@ == old(self)@,
    {
        match self.find(&channel_name) {
            None => {},
            Some(i) => {
                let ghost before = self@;
                let mut channels = self.take_channels();
                channels[i].add_sender(sender);
                let ghost replayed = choose|replayed: int|
                    0 <= replayed <= before.channels[i as int].messages.len() && channels[i as int]@
                        == #[trigger] before.channels[i as int].joined(sender@, replayed);
                proof {
                    assert(channel_views(channels@) =~= before.channels.update(
                        i as int,
                        before.channels[i as int].joined(sender@, replayed),
                    ));
                    lemma_update_keeps_names(before, channel_name@, channels[i as int]@);
                }
                self.channels = channels;
                assert(self@ == before.join(channel_name@, sender@, replayed));
            },
        }
    }

    /// Unsubscribes every handle with the identity of `sender` from the room
    /// called `channel_name`. Does nothing if there is no such room, or if no
    /// such handle is subscribed to it.
    pub fn remove_sender_from_channel(&mut self, channel_name: String, sender: &Subscriber)
        ensures
            final(self)@.wf(),
            final(self)@ == old(self)@.leave(channel_name@, sender@.id),
            !old(self)@.has(channel_name@) ==> final(self)@ == old(self)@,
    {
        match self.find(&channel_name) {
            None => {},
            Some(i) => {
                let ghost before = self@;
                let mut channels = self.take_channels();
                channels[i].remove_sender(sender.id());
                proof {
                    assert(channel_views(channels@) =~= before.channels.update(
                        i as int,
                        before.channels[i as int].left(sender@.id),
                    ));
                    lemma_update_keeps_names(before, channel_name@, channels[i as int]@);
                }
                self.channels = channels;
            },
        }
    }

    /// Broadcasts `content` from `sender_name` to the room called
    /// `channel_name`: stores the message in the room's history under the
    /// current time, and offers `<sender_name>: <content>` to the queue of
    /// every subscriber of the room. A subscriber whose queue is closed is
    /// dropped from the room. Does nothing if there is no such room.
    pub fn broadcast_message(&mut self, channel_name: String, sender_name: String, content: String)
        ensures
            final(self)@.wf(),
            old(self)@.broadcasts_to(final(self)@, channel_name@, sender_name@, content@),
            !old(self)@.has(channel_name@) ==> final(self)@ == old(self)@,
    {
        match self.find(&channel_name) {
            None => {},
            Some(i) => {
                let ghost before = self@;
                let timestamp = unix_now();
                let ghost message = MessageView {
                    sender: sender_name@,
                    content: content@,
                    timestamp: timestamp as int,
                };
                let mut channels = self.take_channels();
                channels[i].publish(sender_name, content, timestamp);
                let ghost accepted = choose|accepted: Seq<bool>|
                    accepted.len() == before.channels[i as int].senders.len() && channels[i as int]@
                        == #[trigger] before.channels[i as int].published(message, accepted);
                proof {
                    assert(channel_views(channels@) =~= before.channels.update(
                        i as int,
                        before.channels[i as int].published(message, accepted),
                    ));
                    lemma_update_keeps_names(before, channel_name@, channels[i as int]@);
                }
                self.channels = channels;
                assert(self@ == before.broadcast(channel_name@, message, accepted));
            },
        }
    }

    /// The names of all rooms, in the order in which they were created.
    pub fn get_active_rooms(&self) -> (names: Vec<String>)
        ensures
            self@.wf(),
            string_views(names@) == self@.names(),
    {
        proof {
            use_type_invariant(self);
        }
        let mut names: Vec<String> = Vec::new();
        let mut i: usize = 0;
        while i < self.channels.len()
            invariant
                i <= self.channels.len(),
                string_views(names@) == self@.names().take(i as int),
            decreases self.channels.len() - i,
        {
            let ghost listed = string_views(names@);
            let name = self.channels[i].name().to_owned();
            names.push(name);
            assert(string_views(names@) =~= listed.push(name@));
            assert(self@.names().take(i + 1) =~= self@.names().take(i as int).push(
                self@.channels[i as int].name,
            ));
            i += 1;
        }
        assert(self@.names().take(i as int) =~= self@.names());
        names
    }
}

} // verus!
