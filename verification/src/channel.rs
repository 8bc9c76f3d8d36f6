//! The broker's bounded in-memory message channel.
//!
//! The transport is tokio's bounded multi-producer/single-consumer channel.
//! Both ends live together inside [`MsgChannel`], so every enqueue and every
//! dequeue goes through a `&mut` borrow of the one owning value; the queued
//! messages are modelled as a sequence, oldest first.

use vstd::prelude::*;

verus! {

/// A bounded FIFO channel of text messages. Holds both the producing and the
/// consuming end of one tokio mpsc channel, so the queue's contents are a
/// function of this value alone and the channel can never close early.
#[verifier::external_body]
pub struct MsgChannel {
    tx: tokio::sync::mpsc::Sender<String>,
    rx: tokio::sync::mpsc::Receiver<String>,
}

/// The messages queued in the channel, oldest first.
pub uninterp spec fn chan_queue(c: MsgChannel) -> Seq<Seq<char>>;

/// The fixed capacity the channel was created with.
pub uninterp spec fn chan_bound(c: MsgChannel) -> nat;

/// Relies on tokio::sync::mpsc::channel: creates an empty FIFO queue bounded
/// at `bound` messages. tokio panics on a zero bound and on one above its
/// semaphore's permit cap, so the bound is kept to a modest range well
/// inside both.
#[verifier::external_body]
pub(crate) fn new_msg_channel(bound: usize) -> (c: MsgChannel)
    requires
        1 <= bound <= 0x1000_0000,
    ensures
        chan_queue(c) == Seq::<Seq<char>>::empty(),
        chan_bound(c) == bound as nat,
{
    let (tx, rx) = tokio::sync::mpsc::channel(bound);
    MsgChannel { tx, rx }
}

/// Relies on tokio Sender::try_send: enqueues the message at the back of the
/// queue, or rejects it without effect when the queue is at capacity. The
/// receiving end is alive inside the same struct, so the channel is never
/// closed and capacity is the only reason to reject.
#[verifier::external_body]
pub(crate) fn chan_try_push(c: &mut MsgChannel, msg: String) -> (accepted: bool)
    ensures
        accepted == (chan_queue(*old(c)).len() < chan_bound(*old(c))),
        accepted ==> chan_queue(*final(c)) == chan_queue(*old(c)).push(msg@),
        !accepted ==> chan_queue(*final(c)) == chan_queue(*old(c)),
        chan_bound(*final(c)) == chan_bound(*old(c)),
{
    c.tx.try_send(msg).is_ok()
}

/// Relies on tokio Receiver::try_recv: dequeues the oldest message, or
/// reports an empty queue. The sending end is alive inside the same struct,
/// so an empty answer can only mean the queue is empty, never disconnected.
#[verifier::external_body]
pub(crate) fn chan_try_pop(c: &mut MsgChannel) -> (m: Option<String>)
    ensures
        chan_bound(*final(c)) == chan_bound(*old(c)),
        chan_queue(*old(c)).len() == 0 ==> m is None && chan_queue(*final(c)) == chan_queue(*old(c)),
        chan_queue(*old(c)).len() > 0 ==> (match m {
            Some(msg) => msg@ == chan_queue(*old(c))[0] && chan_queue(*final(c)) == chan_queue(
                *old(c),
            ).drop_first(),
            None => false,
        }),
{
    c.rx.try_recv().ok()
}

} // verus!
