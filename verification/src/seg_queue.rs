//! The lock-free queue that hands work to a background thread.

use crossbeam_queue::SegQueue;
use vstd::prelude::*;

verus! {

/// What a queue carries: two numbers and a mark, whose meaning is its user's.
pub type Entry = (u64, u64, bool);

/// The unbounded queue of `crossbeam_queue`.
#[verifier::external_type_specification]
#[verifier::external_body]
#[verifier::reject_recursive_types(T)]
pub struct ExSegQueue<T>(SegQueue<T>);

/// What a queue holds, the oldest entry first.
pub uninterp spec fn entries(q: SegQueue<Entry>) -> Seq<Entry>;

/// Calls `SegQueue::new`: a new queue holds nothing.
#[verifier::external_body]
pub(crate) fn queue_new() -> (q: SegQueue<Entry>)
    ensures
        entries(q) == Seq::<Entry>::empty(),
{
    SegQueue::new()
}

/// Calls `SegQueue::push`: the entry goes behind all others. The queue is
/// unbounded, so no push is refused.
#[verifier::external_body]
pub(crate) fn queue_push(q: &mut SegQueue<Entry>, entry: Entry)
    ensures
        entries(*final(q)) == entries(*old(q)).push(entry),
{
    q.push(entry);
}

/// Calls `SegQueue::pop`: the oldest entry leaves, and an empty queue stays
/// as it is.
#[verifier::external_body]
pub(crate) fn queue_pop(q: &mut SegQueue<Entry>) -> (r: Option<Entry>)
    ensures
        match r {
            Some(entry) => entries(*old(q)).len() > 0 && entry == entries(*old(q))[0] && entries(
                *final(q),
            ) == entries(*old(q)).drop_first(),
            None => entries(*old(q)).len() == 0 && entries(*final(q)) == entries(*old(q)),
        },
{
    q.pop()
}

} // verus!
