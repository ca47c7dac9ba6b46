//! The idle queue: a bounded FIFO of slot indices, kept in a
//! `crossbeam_queue::ArrayQueue`. The queue itself is outside code; the
//! wrappers below state what its operations do to the queued indices, and
//! everything built on top of them is verified against those statements.

use vstd::prelude::*;

verus! {

/// Declares crossbeam's bounded queue type, so that it can stand in fields
/// and signatures; its contents are reached only through the names below.
#[verifier::external_type_specification]
#[verifier::external_body]
#[verifier::reject_recursive_types(T)]
pub struct ExArrayQueue<T>(crossbeam_queue::ArrayQueue<T>);

/// The indices currently queued, front first.
pub uninterp spec fn queue_slots(q: crossbeam_queue::ArrayQueue<usize>) -> Seq<usize>;

/// The fixed bound the queue was created with.
pub uninterp spec fn queue_bound(q: crossbeam_queue::ArrayQueue<usize>) -> nat;

/// Relies on crossbeam_queue::ArrayQueue::new: an empty queue with the given
/// capacity. `new` panics on a capacity of zero, or on one too large to pack
/// beside a lap counter in one word; both are excluded here.
#[verifier::external_body]
pub(crate) fn queue_new(cap: usize) -> (q: crossbeam_queue::ArrayQueue<usize>)
    requires
        0 < cap <= 0xffff_ffffusize,
    ensures
        queue_bound(q) == cap,
        queue_slots(q) == Seq::<usize>::empty(),
{
    crossbeam_queue::ArrayQueue::new(cap)
}

/// Relies on crossbeam_queue::ArrayQueue::push: appends the value at the tail,
/// or hands it back when the queue already holds `capacity` values.
#[verifier::external_body]
pub(crate) fn queue_push(
    q: &mut crossbeam_queue::ArrayQueue<usize>,
    idx: usize,
) -> (r: Result<(), usize>)
    ensures
        queue_bound(*final(q)) == queue_bound(*old(q)),
        queue_slots(*old(q)).len() < queue_bound(*old(q)) ==> r is Ok && queue_slots(*final(q)) == queue_slots(*old(q)).push(idx),
        queue_slots(*old(q)).len() >= queue_bound(*old(q)) ==> r is Err && r->Err_0 == idx && queue_slots(*final(q)) == queue_slots(*old(q)),
{
    q.push(idx)
}

/// Relies on crossbeam_queue::ArrayQueue::pop: removes and returns the value
/// at the head, or returns `None` when the queue is empty.
#[verifier::external_body]
pub(crate) fn queue_pop(q: &mut crossbeam_queue::ArrayQueue<usize>) -> (r: Option<usize>)
    ensures
        queue_bound(*final(q)) == queue_bound(*old(q)),
        queue_slots(*old(q)).len() == 0 ==> r is None && queue_slots(*final(q)) == queue_slots(*old(q)),
        queue_slots(*old(q)).len() > 0 ==> r == Some(queue_slots(*old(q))[0]) && queue_slots(*final(q)) == queue_slots(*old(q)).drop_first(),
{
    q.pop()
}

} // verus!
