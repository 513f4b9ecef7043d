use crossbeam_queue::SegQueue;
use vstd::prelude::*;

verus! {

#[verifier::external_type_specification]
#[verifier::external_body]
#[verifier::reject_recursive_types(T)]
pub struct ExSegQueue<T>(SegQueue<T>);

/// The tickets held by a wait queue, oldest first.
pub uninterp spec fn queue_items(q: SegQueue<u64>) -> Seq<u64>;

/// Relies on `SegQueue::new`: a new queue holds nothing.
#[verifier::external_body]
pub(crate) fn queue_new() -> (q: SegQueue<u64>)
    ensures
        queue_items(q) == Seq::<u64>::empty(),
{
    SegQueue::new()
}

/// Relies on `SegQueue::push_mut`: the value is appended at the tail.
#[verifier::external_body]
pub(crate) fn queue_push(q: &mut SegQueue<u64>, value: u64)
    ensures
        queue_items(*final(q)) == queue_items(*old(q)).push(value),
{
    q.push_mut(value)
}

/// Relies on `SegQueue::pop_mut`: the head is removed and returned, or
/// `None` when the queue is empty.
#[verifier::external_body]
pub(crate) fn queue_pop(q: &mut SegQueue<u64>) -> (r: Option<u64>)
    ensures
        queue_items(*old(q)).len() == 0 ==> r is None && queue_items(*final(q)) == queue_items(*old(q)),
        queue_items(*old(q)).len() > 0 ==> r == Some(queue_items(*old(q)).first())
            && queue_items(*final(q)) == queue_items(*old(q)).drop_first(),
{
    q.pop_mut()
}

} // verus!
