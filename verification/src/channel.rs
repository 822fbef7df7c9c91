//! Rooms: who is subscribed, and what has been said.

use crate::message::{format_live, history_text, history_texts, live_text, ChatMessage, MessageView};
use crate::subscriber::{Subscriber, SubscriberView};
use vstd::prelude::*;

verus! {

/// The handles in `senders` after each has been offered `text`, `accepted`
/// telling for each whether its queue took it: a handle whose queue took the
/// text carries it, one whose queue did not is gone. The order is kept.
pub open spec fn delivered(
    senders: Seq<SubscriberView>,
    accepted: Seq<bool>,
    text: Seq<char>,
) -> Seq<SubscriberView>
    recommends
        accepted.len() == senders.len(),
    decreases senders.len(),
{
    if senders.len() == 0 {
        Seq::empty()
    } else {
        let before = delivered(senders.drop_last(), accepted.drop_last(), text);
        if accepted.last() {
            before.push(senders.last().with_text(text))
        } else {
            before
        }
    }
}

/// The handles in `senders` whose identity is not `id`, in their order.
pub open spec fn without(senders: Seq<SubscriberView>, id: u64) -> Seq<SubscriberView>
    decreases senders.len(),
{
    if senders.len() == 0 {
        Seq::empty()
    } else {
        let before = without(senders.drop_last(), id);
        if senders.last().id == id {
            before
        } else {
            before.push(senders.last())
        }
    }
}

/// How many of the queues took the frame.
pub open spec fn taken(accepted: Seq<bool>) -> nat
    decreases accepted.len(),
{
    if accepted.len() == 0 {
        0
    } else {
        taken(accepted.drop_last()) + if accepted.last() {
            1nat
        } else {
            0nat
        }
    }
}

/// As many handles stay as queues took the frame.
pub proof fn lemma_delivered_len(senders: Seq<SubscriberView>, accepted: Seq<bool>, text: Seq<char>)
    requires
        accepted.len() == senders.len(),
    ensures
        delivered(senders, accepted, text).len() == taken(accepted),
    decreases senders.len(),
{
    if senders.len() > 0 {
        lemma_delivered_len(senders.drop_last(), accepted.drop_last(), text);
    }
}

/// A handle whose queue took the frame stays, behind the handles before it
/// that stay, and carries the frame once more than before.
pub proof fn lemma_delivered_at(
    senders: Seq<SubscriberView>,
    accepted: Seq<bool>,
    text: Seq<char>,
    i: int,
)
    requires
        accepted.len() == senders.len(),
        0 <= i < senders.len(),
        accepted[i],
    ensures
        taken(accepted.take(i)) < delivered(senders, accepted, text).len(),
        delivered(senders, accepted, text)[taken(accepted.take(i)) as int] == senders[i].with_text(
            text,
        ),
    decreases senders.len(),
{
    let shorter = senders.drop_last();
    let fewer = accepted.drop_last();
    lemma_delivered_len(shorter, fewer, text);
    if i == senders.len() - 1 {
        assert(accepted.take(i) =~= fewer);
    } else {
        lemma_delivered_at(shorter, fewer, text, i);
        assert(fewer.take(i) =~= accepted.take(i));
    }
}

/// Every handle that stays is one that was there, with the frame added to
/// what its queue had taken; no handle comes from elsewhere.
pub proof fn lemma_delivered_from(
    senders: Seq<SubscriberView>,
    accepted: Seq<bool>,
    text: Seq<char>,
    k: int,
) -> (i: int)
    requires
        accepted.len() == senders.len(),
        0 <= k < delivered(senders, accepted, text).len(),
    ensures
        0 <= i < senders.len(),
        accepted[i],
        k == taken(accepted.take(i)),
        delivered(senders, accepted, text)[k] == senders[i].with_text(text),
    decreases senders.len(),
{
    let shorter = senders.drop_last();
    let fewer = accepted.drop_last();
    lemma_delivered_len(shorter, fewer, text);
    if accepted.last() && k == delivered(shorter, fewer, text).len() {
        let i = senders.len() - 1;
        assert(accepted.take(i) =~= fewer);
        i
    } else {
        let i = lemma_delivered_from(shorter, fewer, text, k);
        assert(fewer.take(i) =~= accepted.take(i));
        i
    }
}

/// Where every queue takes the frame, every handle stays in its place and
/// carries the frame once more than before.
pub proof fn lemma_delivered_to_all(
    senders: Seq<SubscriberView>,
    accepted: Seq<bool>,
    text: Seq<char>,
)
    requires
        accepted.len() == senders.len(),
        forall|i: int| 0 <= i < accepted.len() ==> accepted[i],
    ensures
        delivered(senders, accepted, text) == Seq::new(
            senders.len(),
            |i: int| senders[i].with_text(text),
        ),
    decreases senders.len(),
{
    if senders.len() > 0 {
        lemma_delivered_to_all(senders.drop_last(), accepted.drop_last(), text);
    }
    assert(delivered(senders, accepted, text) =~= Seq::new(
        senders.len(),
        |i: int| senders[i].with_text(text),
    ));
}

/// After a removal no handle with the removed identity is left, and every
/// handle that is left was there before.
pub proof fn lemma_without(senders: Seq<SubscriberView>, id: u64)
    ensures
        forall|k: int|
            0 <= k < without(senders, id).len() ==> (#[trigger] without(senders, id)[k]).id != id,
        forall|k: int|
            0 <= k < without(senders, id).len() ==> senders.contains(
                #[trigger] without(senders, id)[k],
            ),
        forall|i: int|
            0 <= i < senders.len() && senders[i].id != id ==> without(senders, id).contains(
                #[trigger] senders[i],
            ),
    decreases senders.len(),
{
    if senders.len() > 0 {
        let shorter = senders.drop_last();
        lemma_without(shorter, id);
        let rest = without(shorter, id);
        let all = without(senders, id);
        assert forall|k: int| 0 <= k < all.len() implies senders.contains(#[trigger] all[k]) by {
            if k < rest.len() {
                assert(shorter.contains(rest[k]));
                let at = choose|at: int| 0 <= at < shorter.len() && shorter[at] == rest[k];
                assert(senders[at] == all[k]);
            } else {
                assert(senders[senders.len() - 1] == all[k]);
            }
        }
        assert forall|i: int| 0 <= i < senders.len() && senders[i].id != id implies all.contains(
            #[trigger] senders[i],
        ) by {
            if i < shorter.len() {
                assert(rest.contains(shorter[i]));
                let at = choose|at: int| 0 <= at < rest.len() && rest[at] == shorter[i];
                assert(all[at] == senders[i]);
            } else {
                assert(all[all.len() - 1] == senders[i]);
            }
        }
    }
}

/// A removal that finds nothing to remove changes nothing.
pub proof fn lemma_without_absent(senders: Seq<SubscriberView>, id: u64)
    requires
        forall|i: int| 0 <= i < senders.len() ==> senders[i].id != id,
    ensures
        without(senders, id) == senders,
    decreases senders.len(),
{
    if senders.len() > 0 {
        lemma_without_absent(senders.drop_last(), id);
        assert(without(senders, id) =~= senders);
    }
}

/// A room as the contracts see it.
pub struct ChannelView {
    /// The name under which the registry holds the room.
    pub name: Seq<char>,
    /// The handles subscribed to the room, in the order in which they joined.
    pub senders: Seq<SubscriberView>,
    /// Every message broadcast to the room, oldest first.
    pub messages: Seq<MessageView>,
}

impl ChannelView {
    /// A room that nobody has joined and where nothing has been said.
    pub open spec fn empty(name: Seq<char>) -> ChannelView {
        ChannelView { name, senders: Seq::empty(), messages: Seq::empty() }
    }

    /// The room after `sender` joined it and its queue took the first
    /// `replayed` frames of the history. Where that is not the whole
    /// history, the queue refused the frame that comes next, and the handle
    /// is marked by it.
    pub open spec fn joined(self, sender: SubscriberView, replayed: int) -> ChannelView {
        let replayed_to = sender.with_texts(history_texts(self.messages).take(replayed));
        ChannelView {
            name: self.name,
            senders: self.senders.push(
                if replayed < self.messages.len() {
                    replayed_to.with_refusal()
                } else {
                    replayed_to
                },
            ),
            messages: self.messages,
        }
    }

    /// The room after every handle with identity `id` left it.
    pub open spec fn left(self, id: u64) -> ChannelView {
        ChannelView {
            name: self.name,
            senders: without(self.senders, id),
            messages: self.messages,
        }
    }

    /// The room after `message` was broadcast to it, `accepted` telling for
    /// each subscribed handle whether its queue took the live frame.
    pub open spec fn published(self, message: MessageView, accepted: Seq<bool>) -> ChannelView {
        ChannelView {
            name: self.name,
            senders: delivered(
                self.senders,
                accepted,
                live_text(message.sender, message.content),
            ),
            messages: self.messages.push(message),
        }
    }
}

/// The views of a sequence of handles.
pub open spec fn sender_views(senders: Seq<Subscriber>) -> Seq<SubscriberView> {
    Seq::new(senders.len(), |i: int| senders[i]@)
}

/// The views of a sequence of messages.
pub open spec fn message_views(messages: Seq<ChatMessage>) -> Seq<MessageView> {
    Seq::new(messages.len(), |i: int| messages[i]@)
}

/// A room: its subscribers and its history.
pub struct Channel {
    name: String,
    senders: Vec<Subscriber>,
    messages: Vec<ChatMessage>,
}

impl View for Channel {
    type V = ChannelView;

    closed spec fn view(&self) -> ChannelView {
        ChannelView {
            name: self.name@,
            senders: sender_views(self.senders@),
            messages: message_views(self.messages@),
        }
    }
}

impl Channel {
    /// A room called `name` that nobody has joined yet.
    pub fn new(name: String) -> (channel: Channel)
        ensures
            channel@ == ChannelView::empty(name@),
    {
        let channel = Channel { name, senders: Vec::new(), messages: Vec::new() };
        assert(channel@.senders =~= Seq::empty());
        assert(channel@.messages =~= Seq::empty());
        channel
    }

    /// The frame that replays `msg` to a subscriber who joins later.
    pub fn format_message(&self, msg: &ChatMessage) -> (text: String)
        ensures
            text@ == history_text(msg@),
    {
        msg.to_history_text()
    }

    /// The name under which the registry holds the room.
    pub fn name(&self) -> (name: &str)
        ensures
            name@ == self@.name,
    {
        self.name.as_str()
    }

    /// The identities of the subscribed handles, in the order in which they
    /// joined.
    pub fn sender_ids(&self) -> (ids: Vec<u64>)
        ensures
            ids@ == Seq::new(self@.senders.len(), |i: int| self@.senders[i].id),
    {
        let mut ids: Vec<u64> = Vec::new();
        let mut i: usize = 0;
        while i < self.senders.len()
            invariant
                i <= self.senders.len(),
                ids@ == Seq::new(i as nat, |k: int| self@.senders[k].id),
            decreases self.senders.len() - i,
        {
            ids.push(self.senders[i].id());
            i += 1;
            assert(ids@ =~= Seq::new(i as nat, |k: int| self@.senders[k].id));
        }
        assert(ids@ =~= Seq::new(self@.senders.len(), |k: int| self@.senders[k].id));
        ids
    }

    /// The history of the room, oldest message first.
    pub fn history(&self) -> (messages: &Vec<ChatMessage>)
        ensures
            message_views(messages@) == self@.messages,
    {
        &self.messages
    }

    /// Whether the room is called `name`.
    pub fn is_called(&self, name: &String) -> (called: bool)
        ensures
            called == (self@.name == name@),
    {
        self.name == *name
    }

    /// Subscribes `sender` and replays the history to its queue, oldest
    /// message first, in the form of [`Channel::format_message`]. The replay
    /// stops at the first frame that the queue does not take; the handle is
    /// subscribed either way.
    pub fn add_sender(&mut self, sender: Subscriber)
        ensures
            exists|replayed: int|
                0 <= replayed <= old(self)@.messages.len() && final(self)@ == #[trigger] old(
                    self,
                )@.joined(sender@, replayed),
    {
        let mut joining = sender;
        let ghost texts = history_texts(self@.messages);
        let count = self.messages.len();
        let mut replayed: usize = 0;
        let mut open = true;
        assert(texts.take(0) =~= Seq::empty());
        assert(joining@.enqueued =~= sender@.enqueued + texts.take(0));
        while open && replayed < count
            invariant
                *self == *old(self),
                count == self.messages.len(),
                texts == history_texts(self@.messages),
                replayed <= count,
                open ==> joining@ == sender@.with_texts(texts.take(replayed as int)),
                !open ==> replayed < count && joining@ == sender@.with_texts(
                    texts.take(replayed as int),
                ).with_refusal(),
            decreases (count - replayed) + (if open { 1int } else { 0int }),
        {
            let text = self.format_message(&self.messages[replayed]);
            open = joining.send_text(text.as_str());
            if open {
                assert(texts.take(replayed + 1) =~= texts.take(replayed as int).push(text@));
                assert(joining@.enqueued =~= sender@.enqueued + texts.take(replayed + 1));
                replayed += 1;
            }
        }
        let ghost joined = joining@;
        self.senders.push(joining);
        assert(self@.senders =~= old(self)@.senders.push(joined));
        assert(self@ == old(self)@.joined(sender@, replayed as int));
    }

    /// Unsubscribes every handle whose identity is `id`. The other handles
    /// keep their order.
    pub fn remove_sender(&mut self, id: u64)
        ensures
            final(self)@ == old(self)@.left(id),
    {
        let mut present: Vec<Subscriber> = Vec::new();
        std::mem::swap(&mut self.senders, &mut present);
        let mut kept: Vec<Subscriber> = Vec::new();
        let ghost before = sender_views(present@);
        assert(before.take(0) =~= Seq::empty());
        for sender in it: present
            invariant
                self@.name == old(self)@.name,
                self@.messages == old(self)@.messages,
                before == old(self)@.senders,
                it.seq() == present@,
                before == sender_views(present@),
                sender_views(kept@) == without(before.take(it.index() as int), id),
        {
            proof {
                let n = it.index() as int;
                assert(before.take(n + 1).drop_last() =~= before.take(n));
            }
            let ghost kept_before = sender_views(kept@);
            let ghost staying = sender@;
            if sender.id() != id {
                kept.push(sender);
                assert(sender_views(kept@) =~= kept_before.push(staying));
            }
        }
        assert(before.take(before.len() as int) =~= before);
        self.senders = kept;
    }

    /// Stores a message from `sender_name` saying `content`, accepted at
    /// `timestamp`, and offers its live frame to every subscriber. A
    /// subscriber whose queue is closed is dropped from the room.
    pub fn publish(&mut self, sender_name: String, content: String, timestamp: i64)
        ensures
            exists|accepted: Seq<bool>|
                accepted.len() == old(self)@.senders.len() && final(self)@ == #[trigger] old(
                    self,
                )@.published(
                    MessageView {
                        sender: sender_name@,
                        content: content@,
                        timestamp: timestamp as int,
                    },
                    accepted,
                ),
    {
        let text = format_live(sender_name.as_str(), content.as_str());
        let ghost message = MessageView {
            sender: sender_name@,
            content: content@,
            timestamp: timestamp as int,
        };
        self.messages.push(ChatMessage::new(sender_name, content, timestamp));
        assert(self@.messages =~= old(self)@.messages.push(message));

        let mut offered: Vec<Subscriber> = Vec::new();
        std::mem::swap(&mut self.senders, &mut offered);
        let mut kept: Vec<Subscriber> = Vec::new();
        let ghost mut accepted: Seq<bool> = Seq::empty();
        let ghost before = sender_views(offered@);
        assert(before == old(self)@.senders);
        assert(before.take(0) =~= Seq::empty());

        for sender in it: offered
            invariant
                self@.name == old(self)@.name,
                self@.messages == old(self)@.messages.push(message),
                before == old(self)@.senders,
                accepted.len() == it.index(),
                it.seq() == offered@,
                before == sender_views(offered@),
                sender_views(kept@) == delivered(before.take(it.index() as int), accepted, text@),
        {
            let mut sender = sender;
            let took = sender.send_text(text.as_str());
            proof {
                let n = it.index() as int;
                assert(before.take(n + 1).drop_last() =~= before.take(n));
                assert(accepted.push(took).drop_last() =~= accepted);
                accepted = accepted.push(took);
            }
            let ghost kept_before = sender_views(kept@);
            let ghost offered_to = sender@;
            if took {
                kept.push(sender);
                assert(sender_views(kept@) =~= kept_before.push(offered_to));
            }
        }
        assert(before.take(before.len() as int) =~= before);
        self.senders = kept;
        assert(self@ == old(self)@.published(message, accepted));
    }
}

} // verus!
