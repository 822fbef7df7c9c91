//! A subscriber handle: an identity plus the sending half of one
//! connection's private outbound queue.

use tokio::sync::mpsc::UnboundedSender;
use tokio_tungstenite::tungstenite::Message;
use vstd::prelude::*;

verus! {

/// The sending half of tokio's unbounded channel, carried as an opaque value.
#[verifier::external_type_specification]
#[verifier::external_body]
#[verifier::reject_recursive_types(T)]
pub struct ExUnboundedSender<T>(UnboundedSender<T>);

/// A WebSocket message of tungstenite, carried as an opaque value.
#[verifier::external_type_specification]
#[verifier::external_body]
pub struct ExMessage(Message);

/// Offers `text` to `queue` as a text frame and says whether the queue took it.
///
/// Trusted: calls tokio's `UnboundedSender::send` on tungstenite's
/// `Message::Text`. Whether the queue takes the frame depends on whether its
/// receiving half is still open, so nothing is claimed of the result. `send`
/// never waits; it aborts the process only when the queue already holds
/// `usize::MAX / 2` frames.
#[verifier::external_body]
fn enqueue_text(queue: &UnboundedSender<Message>, text: String) -> (accepted: bool) {
    queue.send(Message::Text(text)).is_ok()
}

/// Another sending half of the same queue.
///
/// Trusted: calls `UnboundedSender::clone`. The queue is opaque here, so
/// nothing is claimed of the result.
#[verifier::external_body]
fn share_queue(queue: &UnboundedSender<Message>) -> (shared: UnboundedSender<Message>) {
    queue.clone()
}

/// What the relay knows of a subscriber handle.
pub struct SubscriberView {
    /// The identity by which the handle is found again and removed.
    pub id: u64,
    /// The texts that the queue has taken through this handle, oldest first.
    pub enqueued: Seq<Seq<char>>,
    /// Whether the queue has refused a text that was offered through this
    /// handle.
    pub refused: bool,
}

impl SubscriberView {
    /// The handle after its queue has taken `text`.
    pub open spec fn with_text(self, text: Seq<char>) -> SubscriberView {
        SubscriberView { id: self.id, enqueued: self.enqueued.push(text), refused: self.refused }
    }

    /// The handle after its queue has taken each of `texts`, in order.
    pub open spec fn with_texts(self, texts: Seq<Seq<char>>) -> SubscriberView {
        SubscriberView { id: self.id, enqueued: self.enqueued + texts, refused: self.refused }
    }

    /// The handle after its queue has refused a text.
    pub open spec fn with_refusal(self) -> SubscriberView {
        SubscriberView { id: self.id, enqueued: self.enqueued, refused: true }
    }

    /// A handle with identity `id` through which nothing has been offered
    /// yet.
    pub open spec fn unused(id: u64) -> SubscriberView {
        SubscriberView { id, enqueued: Seq::empty(), refused: false }
    }
}

/// A subscriber handle. Rooms hold handles; the connection that owns the
/// receiving half of the queue drains it.
pub struct Subscriber {
    id: u64,
    queue: UnboundedSender<Message>,
    enqueued: Ghost<Seq<Seq<char>>>,
    refused: Ghost<bool>,
}

impl View for Subscriber {
    type V = SubscriberView;

    closed spec fn view(&self) -> SubscriberView {
        SubscriberView { id: self.id, enqueued: self.enqueued@, refused: self.refused@ }
    }
}

impl Subscriber {
    /// A handle with identity `id` onto `queue`, through which nothing has
    /// been offered yet.
    pub fn new(id: u64, queue: UnboundedSender<Message>) -> (subscriber: Subscriber)
        ensures
            subscriber@ == SubscriberView::unused(id),
    {
        Subscriber { id, queue, enqueued: Ghost(Seq::empty()), refused: Ghost(false) }
    }

    /// The identity of the handle.
    pub fn id(&self) -> (id: u64)
        ensures
            id == self@.id,
    {
        self.id
    }

    /// Another handle with the same identity onto the same queue, through
    /// which nothing has been offered yet.
    pub fn fresh_handle(&self) -> (handle: Subscriber)
        ensures
            handle@ == SubscriberView::unused(self@.id),
    {
        Subscriber {
            id: self.id,
            queue: share_queue(&self.queue),
            enqueued: Ghost(Seq::empty()),
            refused: Ghost(false),
        }
    }

    /// Offers `text` to the queue. Returns whether the queue took it; a
    /// closed queue takes nothing, and the handle is marked by the refusal.
    pub fn send_text(&mut self, text: &str) -> (accepted: bool)
        ensures
            accepted ==> final(self)@ == old(self)@.with_text(text@),
            !accepted ==> final(self)@ == old(self)@.with_refusal(),
    {
        let accepted = enqueue_text(&self.queue, text.to_owned());
        self.note_offer(text, accepted);
        accepted
    }

    /// Notes what the queue did with `text` when it was offered: a text that
    /// the queue took is added, last, to what it has taken through this
    /// handle; one that it refused marks the handle.
    fn note_offer(&mut self, text: &str, accepted: bool)
        ensures
            accepted ==> final(self)@ == old(self)@.with_text(text@),
            !accepted ==> final(self)@ == old(self)@.with_refusal(),
    {
        if accepted {
            proof {
                self.enqueued@ = self.enqueued@.push(text@);
            }
        } else {
            proof {
                self.refused@ = true;
            }
        }
    }
}

} // verus!
