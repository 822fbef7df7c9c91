//! What holds of the relay whatever the clock says and whichever queues are
//! open.
//!
//! The operations are those of [`ManagerView`], which the contracts of
//! [`crate::manager::ChannelManager`] speak of. What the outside world
//! decides enters them as arguments: `replayed`, how many history frames a
//! joining queue took; `accepted`, which queues took a live frame; and the
//! timestamp of a message. A queue that is open takes every frame.

use crate::channel::{
    lemma_delivered_at, lemma_delivered_from, lemma_delivered_len, lemma_delivered_to_all,
    lemma_without, lemma_without_absent, taken, without,
};
use crate::connection::{closed, steps_to, ConnectionView};
use crate::manager::{lemma_ensure, lemma_position, lemma_with_channel, ManagerView};
use crate::message::{history_text, history_texts, live_text, live_texts, MessageView};
use crate::protocol::{
    create_prefix, join_prefix, leave_prefix, message_fields, message_prefix, parse, CommandView,
};
use crate::subscriber::SubscriberView;
use crate::text::{colon_count, lemma_colon_count_split, split_at_colon};
use vstd::prelude::*;

verus! {

/// Asking for a room twice is the same as asking for it once, and leaves
/// exactly one room of that name.
pub proof fn law_ensure_room_is_idempotent(manager: ManagerView, name: Seq<char>)
    requires
        manager.wf(),
    ensures
        manager.ensure(name).ensure(name) == manager.ensure(name),
        manager.ensure(name).wf(),
        exists|i: int| manager.ensure(name).named_at(name, i),
        forall|i: int, j: int|
            manager.ensure(name).named_at(name, i) && manager.ensure(name).named_at(name, j) ==> i
                == j,
{
    lemma_ensure(manager, name, name);
    let once = manager.ensure(name);
    assert(once.named_at(name, once.position(name)));
    assert forall|i: int, j: int| once.named_at(name, i) && once.named_at(name, j) implies i
        == j by {
        lemma_position(once, name, i);
        lemma_position(once, name, j);
    }
}

/// A join, a leave or a broadcast changes the one room it names: the room is
/// still there, and every other room is as it was.
pub proof fn law_other_rooms_are_untouched(
    manager: ManagerView,
    name: Seq<char>,
    other: Seq<char>,
    sender: SubscriberView,
    replayed: int,
    id: u64,
    message: MessageView,
    accepted: Seq<bool>,
)
    requires
        manager.wf(),
        manager.has(other),
        other != name,
    ensures
        manager.join(name, sender, replayed).has(other),
        manager.join(name, sender, replayed).channel(other) == manager.channel(other),
        manager.leave(name, id).has(other),
        manager.leave(name, id).channel(other) == manager.channel(other),
        manager.broadcast(name, message, accepted).has(other),
        manager.broadcast(name, message, accepted).channel(other) == manager.channel(other),
{
    if manager.has(name) {
        let room = manager.channel(name);
        assert(manager.named_at(name, manager.position(name)));
        lemma_with_channel(manager, name, room.joined(sender, replayed), other);
        lemma_with_channel(manager, name, room.left(id), other);
        lemma_with_channel(manager, name, room.published(message, accepted), other);
    }
}

/// Leaving a room that does not exist, or one to which no handle of that
/// identity is subscribed, changes nothing.
pub proof fn law_leave_without_membership(manager: ManagerView, name: Seq<char>, id: u64)
    requires
        manager.wf(),
        manager.has(name) ==> forall|i: int|
            0 <= i < manager.channel(name).senders.len() ==> manager.channel(name).senders[i].id
                != id,
    ensures
        manager.leave(name, id) == manager,
{
    if manager.has(name) {
        let room = manager.channel(name);
        assert(manager.named_at(name, manager.position(name)));
        lemma_without_absent(room.senders, id);
        assert(room.left(id) == room);
        assert(manager.leave(name, id).channels =~= manager.channels);
    }
}

/// Join, then broadcast: a handle that has joined a room takes the next
/// broadcast to that room exactly once, if its queue is open. It is still
/// subscribed, and what its queue has taken is what it had taken when the
/// join was done, followed by the live frame.
pub proof fn law_join_then_broadcast(
    manager: ManagerView,
    name: Seq<char>,
    sender: SubscriberView,
    replayed: int,
    message: MessageView,
    accepted: Seq<bool>,
)
    requires
        manager.wf(),
        manager.has(name),
        accepted.len() == manager.channel(name).senders.len() + 1,
        accepted.last(),
    ensures
        ({
            let joined = manager.join(name, sender, replayed);
            let after = joined.broadcast(name, message, accepted);
            let handle = joined.channel(name).senders.last();
            &&& handle.id == sender.id
            &&& after.has(name)
            &&& after.channel(name).senders.len() == taken(accepted)
            &&& taken(accepted) > 0
            &&& after.channel(name).senders.last() == handle.with_text(
                live_text(message.sender, message.content),
            )
        }),
{
    let room = manager.channel(name);
    assert(manager.named_at(name, manager.position(name)));
    lemma_with_channel(manager, name, room.joined(sender, replayed), name);
    let joined = manager.join(name, sender, replayed);
    let entered = joined.channel(name);
    lemma_with_channel(joined, name, entered.published(message, accepted), name);
    lemma_delivered_len(
        entered.senders,
        accepted,
        live_text(message.sender, message.content),
    );
}

/// Leave, then broadcast: once the handles of an identity have left a room,
/// a broadcast to that room reaches none of that identity: no handle of the
/// room carries it afterwards.
pub proof fn law_leave_then_broadcast(
    manager: ManagerView,
    name: Seq<char>,
    id: u64,
    message: MessageView,
    accepted: Seq<bool>,
)
    requires
        manager.wf(),
        manager.has(name),
        accepted.len() == manager.leave(name, id).channel(name).senders.len(),
    ensures
        ({
            let after = manager.leave(name, id).broadcast(name, message, accepted);
            &&& after.has(name)
            &&& forall|k: int|
                0 <= k < after.channel(name).senders.len() ==> (
                #[trigger] after.channel(name).senders[k]).id != id
        }),
{
    let room = manager.channel(name);
    assert(manager.named_at(name, manager.position(name)));
    lemma_with_channel(manager, name, room.left(id), name);
    let gone = manager.leave(name, id);
    let emptied = gone.channel(name);
    lemma_with_channel(gone, name, emptied.published(message, accepted), name);
    let after = gone.broadcast(name, message, accepted);
    let text = live_text(message.sender, message.content);
    lemma_without(room.senders, id);
    assert forall|k: int| 0 <= k < after.channel(name).senders.len() implies (
    #[trigger] after.channel(name).senders[k]).id != id by {
        let i = lemma_delivered_from(emptied.senders, accepted, text, k);
        assert(without(room.senders, id)[i].id != id);
    }
}

/// Broadcasts are stored in the order in which they are made: after three
/// broadcasts the history is the old one followed by the three messages,
/// whichever queues took them.
pub proof fn law_broadcasts_extend_history(
    manager: ManagerView,
    name: Seq<char>,
    first: MessageView,
    first_accepted: Seq<bool>,
    second: MessageView,
    second_accepted: Seq<bool>,
    third: MessageView,
    third_accepted: Seq<bool>,
)
    requires
        manager.wf(),
        manager.has(name),
    ensures
        ({
            let after = manager.broadcast(name, first, first_accepted).broadcast(
                name,
                second,
                second_accepted,
            ).broadcast(name, third, third_accepted);
            &&& after.wf()
            &&& after.has(name)
            &&& after.channel(name).messages == manager.channel(name).messages + seq![
                first,
                second,
                third,
            ]
            &&& history_texts(after.channel(name).messages) == history_texts(
                manager.channel(name).messages,
            ) + seq![history_text(first), history_text(second), history_text(third)]
        }),
{
    let room = manager.channel(name);
    assert(manager.named_at(name, manager.position(name)));
    lemma_with_channel(manager, name, room.published(first, first_accepted), name);
    let one = manager.broadcast(name, first, first_accepted);
    lemma_with_channel(one, name, one.channel(name).published(second, second_accepted), name);
    let two = one.broadcast(name, second, second_accepted);
    lemma_with_channel(two, name, two.channel(name).published(third, third_accepted), name);
    let after = two.broadcast(name, third, third_accepted);
    assert(after.channel(name).messages =~= room.messages + seq![first, second, third]);
    assert(history_texts(after.channel(name).messages) =~= history_texts(room.messages) + seq![
        history_text(first),
        history_text(second),
        history_text(third),
    ]);
}

/// History ordering: a handle that joins a room with an open queue takes the
/// whole history, oldest message first, and only then the next live
/// broadcast; nothing comes in between, nothing is missing and nothing comes
/// twice.
pub proof fn law_history_comes_before_live(
    manager: ManagerView,
    name: Seq<char>,
    sender: SubscriberView,
    live: MessageView,
    accepted: Seq<bool>,
)
    requires
        manager.wf(),
        manager.has(name),
        accepted.len() == manager.channel(name).senders.len() + 1,
        accepted.last(),
    ensures
        ({
            let history = manager.channel(name).messages;
            let after = manager.join(name, sender, history.len() as int).broadcast(
                name,
                live,
                accepted,
            );
            &&& after.has(name)
            &&& after.channel(name).senders.len() > 0
            &&& after.channel(name).senders.last().id == sender.id
            &&& after.channel(name).senders.last().enqueued == sender.enqueued + history_texts(
                history,
            ) + seq![live_text(live.sender, live.content)]
        }),
{
    let history = manager.channel(name).messages;
    law_join_then_broadcast(manager, name, sender, history.len() as int, live, accepted);
    let room = manager.channel(name);
    assert(manager.named_at(name, manager.position(name)));
    lemma_with_channel(manager, name, room.joined(sender, history.len() as int), name);
    assert(history_texts(history).take(history.len() as int) =~= history_texts(history));
    let after = manager.join(name, sender, history.len() as int).broadcast(name, live, accepted);
    assert(after.channel(name).senders.last().enqueued =~= sender.enqueued + history_texts(history)
        + seq![live_text(live.sender, live.content)]);
}

/// Fan-out: a broadcast reaches every handle of the room whose queue is
/// open, exactly once. The handle stays subscribed, behind the handles
/// before it that stay, and what its queue has taken grows by the live
/// frame, once.
pub proof fn law_broadcast_reaches_each_open_queue(
    manager: ManagerView,
    name: Seq<char>,
    message: MessageView,
    accepted: Seq<bool>,
    i: int,
)
    requires
        manager.wf(),
        manager.has(name),
        accepted.len() == manager.channel(name).senders.len(),
        0 <= i < accepted.len(),
        accepted[i],
    ensures
        ({
            let after = manager.broadcast(name, message, accepted);
            let at = taken(accepted.take(i)) as int;
            &&& after.has(name)
            &&& at < after.channel(name).senders.len()
            &&& after.channel(name).senders[at] == manager.channel(name).senders[i].with_text(
                live_text(message.sender, message.content),
            )
        }),
{
    let room = manager.channel(name);
    assert(manager.named_at(name, manager.position(name)));
    lemma_with_channel(manager, name, room.published(message, accepted), name);
    lemma_delivered_at(room.senders, accepted, live_text(message.sender, message.content), i);
}

/// Fan-out, in order: where all queues of a room are open, two broadcasts
/// leave every handle subscribed in its place, and each queue has taken the
/// first live frame and then the second, after what it had taken before.
pub proof fn law_fan_out_keeps_order(
    manager: ManagerView,
    name: Seq<char>,
    first: MessageView,
    second: MessageView,
    first_accepted: Seq<bool>,
    second_accepted: Seq<bool>,
)
    requires
        manager.wf(),
        manager.has(name),
        first_accepted.len() == manager.channel(name).senders.len(),
        second_accepted.len() == manager.channel(name).senders.len(),
        forall|i: int| 0 <= i < first_accepted.len() ==> first_accepted[i],
        forall|i: int| 0 <= i < second_accepted.len() ==> second_accepted[i],
    ensures
        ({
            let before = manager.channel(name).senders;
            let after = manager.broadcast(name, first, first_accepted).broadcast(
                name,
                second,
                second_accepted,
            );
            &&& after.has(name)
            &&& after.channel(name).senders.len() == before.len()
            &&& forall|i: int|
                0 <= i < before.len() ==> {
                    &&& (#[trigger] after.channel(name).senders[i]).id == before[i].id
                    &&& after.channel(name).senders[i].enqueued == before[i].enqueued + seq![
                        live_text(first.sender, first.content),
                        live_text(second.sender, second.content),
                    ]
                }
        }),
{
    let room = manager.channel(name);
    let before = room.senders;
    assert(manager.named_at(name, manager.position(name)));
    lemma_with_channel(manager, name, room.published(first, first_accepted), name);
    let one = manager.broadcast(name, first, first_accepted);
    let first_text = live_text(first.sender, first.content);
    let second_text = live_text(second.sender, second.content);
    lemma_delivered_to_all(before, first_accepted, first_text);
    let between = one.channel(name).senders;
    lemma_with_channel(one, name, one.channel(name).published(second, second_accepted), name);
    lemma_delivered_to_all(between, second_accepted, second_text);
    let after = one.broadcast(name, second, second_accepted);
    assert forall|i: int| 0 <= i < before.len() implies {
        &&& (#[trigger] after.channel(name).senders[i]).id == before[i].id
        &&& after.channel(name).senders[i].enqueued == before[i].enqueued + seq![
            first_text,
            second_text,
        ]
    } by {
        assert(between[i] == before[i].with_text(first_text));
        assert(after.channel(name).senders[i] == between[i].with_text(second_text));
        assert(before[i].enqueued.push(first_text).push(second_text) =~= before[i].enqueued + seq![
            first_text,
            second_text,
        ]);
    }
}

/// A broadcast to a room that does not exist changes nothing: no room is
/// made, nothing is stored, and no queue is offered anything.
pub proof fn law_broadcast_to_missing_room(
    manager: ManagerView,
    after: ManagerView,
    name: Seq<char>,
    sender_name: Seq<char>,
    content: Seq<char>,
)
    requires
        !manager.has(name),
        manager.broadcasts_to(after, name, sender_name, content),
    ensures
        after == manager,
{
}

/// A message frame with fewer than three fields, that is with fewer than two
/// colons behind its prefix, carries no command: the connection and the
/// registry are after it what they were before.
pub proof fn law_incomplete_message_is_ignored(
    text: Seq<char>,
    before: ConnectionView,
    manager: ManagerView,
    after: ConnectionView,
    manager_after: ManagerView,
)
    requires
        message_prefix().is_prefix_of(text),
        colon_count(text.skip(message_prefix().len() as int)) < 2,
        steps_to(before, manager, parse(text), after, manager_after),
    ensures
        parse(text) is None,
        after == before,
        manager_after == manager,
{
    reveal_strlit("CREATE_ROOM:");
    reveal_strlit("JOIN_ROOM:");
    reveal_strlit("LEAVE_ROOM:");
    reveal_strlit("ROOM_MSG:");
    assert(message_prefix()[0] == 'R');
    assert(text[0] == text.subrange(0, message_prefix().len() as int)[0]);
    if create_prefix().is_prefix_of(text) {
        assert(text[0] == text.subrange(0, create_prefix().len() as int)[0]);
    }
    if join_prefix().is_prefix_of(text) {
        assert(text[0] == text.subrange(0, join_prefix().len() as int)[0]);
    }
    if leave_prefix().is_prefix_of(text) {
        assert(text[0] == text.subrange(0, leave_prefix().len() as int)[0]);
    }
    let rest = text.skip(message_prefix().len() as int);
    lemma_colon_count_split(rest);
    match split_at_colon(rest) {
        Some((_, tail)) => lemma_colon_count_split(tail),
        None => {},
    }
    assert(message_fields(rest) is None);
}

/// A message frame carries a command exactly when two colons or more stand
/// behind its prefix.
pub proof fn law_message_needs_three_fields(rest: Seq<char>)
    ensures
        message_fields(rest) is Some <==> colon_count(rest) >= 2,
{
    lemma_colon_count_split(rest);
    match split_at_colon(rest) {
        Some((_, tail)) => lemma_colon_count_split(tail),
        None => {},
    }
}

/// Entering a room does not leave the rooms entered before: the connection
/// tracks the new room, and every other room, with the handles subscribed to
/// it, is as it was.
pub proof fn law_entering_keeps_other_memberships(
    before: ConnectionView,
    manager: ManagerView,
    name: Seq<char>,
    other: Seq<char>,
    after: ConnectionView,
    manager_after: ManagerView,
)
    requires
        manager.wf(),
        manager.has(other),
        other != name,
        steps_to(before, manager, Some(CommandView::JoinRoom { name }), after, manager_after)
            || steps_to(
            before,
            manager,
            Some(CommandView::CreateRoom { name }),
            after,
            manager_after,
        ),
    ensures
        after.current_channel == name,
        manager_after.has(name),
        manager_after.has(other),
        manager_after.channel(other) == manager.channel(other),
{
    lemma_ensure(manager, name, other);
    let made = manager.ensure(name);
    let replayed = choose|replayed: int|
        0 <= replayed <= made.channel(name).messages.len() && manager_after == #[trigger] made.join(
            name,
            before.handle(),
            replayed,
        );
    assert(made.named_at(name, made.position(name)));
    lemma_with_channel(made, name, made.channel(name).joined(before.handle(), replayed), other);
    lemma_with_channel(made, name, made.channel(name).joined(before.handle(), replayed), name);
}

/// The end of a connection leaves the tracked room once: the connection is
/// idle afterwards, and ending it again changes nothing.
pub proof fn law_close_leaves_once(before: ConnectionView, manager: ManagerView)
    ensures
        before.idle().is_idle(),
        closed(before.idle(), closed(before, manager)) == closed(before, manager),
        before.is_idle() ==> closed(before, manager) == manager,
{
}

/// A connection sends nothing itself: whatever the frame, its own handle
/// has afterwards been offered what it had been offered before, and no more.
/// What reaches the client comes through the handles of the rooms.
pub proof fn law_connection_sends_nothing_itself(
    before: ConnectionView,
    manager: ManagerView,
    command: Option<CommandView>,
    after: ConnectionView,
    manager_after: ManagerView,
)
    requires
        steps_to(before, manager, command, after, manager_after),
    ensures
        after.id == before.id,
        after.sent == before.sent,
        after.refused == before.refused,
        before.idle().sent == before.sent,
        before.idle().refused == before.refused,
{
}

/// A frame that begins with none of the four prefixes carries no command:
/// the connection, what its handle has sent, and the registry with every
/// queue's handle are after it what they were before.
pub proof fn law_unknown_frame_is_ignored(
    text: Seq<char>,
    before: ConnectionView,
    manager: ManagerView,
    after: ConnectionView,
    manager_after: ManagerView,
)
    requires
        !create_prefix().is_prefix_of(text),
        !join_prefix().is_prefix_of(text),
        !leave_prefix().is_prefix_of(text),
        !message_prefix().is_prefix_of(text),
        steps_to(before, manager, parse(text), after, manager_after),
    ensures
        parse(text) is None,
        after == before,
        manager_after == manager,
{
}

/// A replay is cut short only by a refusal: a handle that has joined a room
/// and shows no refusal has taken the whole history, oldest message first,
/// after what it had taken before.
pub proof fn law_short_replay_means_refusal(
    manager: ManagerView,
    name: Seq<char>,
    sender: SubscriberView,
    replayed: int,
)
    requires
        manager.wf(),
        manager.has(name),
        0 <= replayed <= manager.channel(name).messages.len(),
    ensures
        ({
            let history = manager.channel(name).messages;
            let handle = manager.join(name, sender, replayed).channel(name).senders.last();
            &&& handle.id == sender.id
            &&& replayed < history.len() ==> handle.refused
            &&& !handle.refused ==> handle.enqueued == sender.enqueued + history_texts(history)
        }),
{
    let room = manager.channel(name);
    assert(manager.named_at(name, manager.position(name)));
    lemma_with_channel(manager, name, room.joined(sender, replayed), name);
    assert(history_texts(room.messages).take(room.messages.len() as int) =~= history_texts(
        room.messages,
    ));
}

/// Fan-out, for any number of broadcasts: where all queues of a room are open
/// throughout, every handle stays subscribed in its place, each queue has
/// taken the live frame of every broadcast exactly once and in the order of
/// the broadcasts, after what it had taken before, and the history has grown
/// by the messages in that order.
pub proof fn law_fan_out_in_order(
    manager: ManagerView,
    name: Seq<char>,
    messages: Seq<MessageView>,
    accepted: Seq<Seq<bool>>,
)
    requires
        manager.wf(),
        manager.has(name),
        accepted.len() == messages.len(),
        forall|k: int|
            0 <= k < accepted.len() ==> (#[trigger] accepted[k]).len() == manager.channel(
                name,
            ).senders.len(),
        forall|k: int, i: int|
            0 <= k < accepted.len() && 0 <= i < accepted[k].len() ==> #[trigger] accepted[k][i],
    ensures
        ({
            let before = manager.channel(name);
            let after = manager.broadcast_each(name, messages, accepted);
            &&& after.wf()
            &&& after.has(name)
            &&& after.channel(name).messages == before.messages + messages
            &&& after.channel(name).senders.len() == before.senders.len()
            &&& forall|i: int|
                0 <= i < before.senders.len() ==> #[trigger] after.channel(name).senders[i]
                    == before.senders[i].with_texts(live_texts(messages))
        }),
    decreases messages.len(),
{
    let before = manager.channel(name);
    let after = manager.broadcast_each(name, messages, accepted);
    if messages.len() == 0 {
        assert(before.messages + messages =~= before.messages);
        assert forall|i: int| 0 <= i < before.senders.len() implies #[trigger] after.channel(
            name,
        ).senders[i] == before.senders[i].with_texts(live_texts(messages)) by {
            let taken_before = before.senders[i].enqueued;
            assert(taken_before + live_texts(messages) =~= taken_before);
        }
    } else {
        let earlier = messages.drop_last();
        let earlier_accepted = accepted.drop_last();
        assert forall|k: int| 0 <= k < earlier_accepted.len() implies (
        #[trigger] earlier_accepted[k]).len() == before.senders.len() by {
            assert(earlier_accepted[k] == accepted[k]);
        }
        assert forall|k: int, i: int|
            0 <= k < earlier_accepted.len() && 0 <= i
                < earlier_accepted[k].len() implies #[trigger] earlier_accepted[k][i] by {
            assert(earlier_accepted[k] == accepted[k]);
            assert(accepted[k][i]);
        }
        law_fan_out_in_order(manager, name, earlier, earlier_accepted);
        let so_far = manager.broadcast_each(name, earlier, earlier_accepted);
        let room = so_far.channel(name);
        let last = messages.last();
        let text = live_text(last.sender, last.content);
        let took = accepted.last();
        assert(took == accepted[accepted.len() - 1]);
        assert forall|i: int| 0 <= i < took.len() implies took[i] by {
            assert(accepted[accepted.len() - 1][i]);
        }
        assert(so_far.named_at(name, so_far.position(name)));
        lemma_with_channel(so_far, name, room.published(last, took), name);
        lemma_delivered_to_all(room.senders, took, text);
        assert(after.channel(name).messages =~= before.messages + messages);
        assert forall|i: int| 0 <= i < before.senders.len() implies #[trigger] after.channel(
            name,
        ).senders[i] == before.senders[i].with_texts(live_texts(messages)) by {
            assert(room.senders[i] == before.senders[i].with_texts(live_texts(earlier)));
            assert(after.channel(name).senders[i] == room.senders[i].with_text(text));
            assert((before.senders[i].enqueued + live_texts(earlier)).push(text)
                =~= before.senders[i].enqueued + live_texts(messages));
        }
    }
}

} // verus!
