//! The expected-order queue of the build pipeline: a FIFO of the `queues`
//! crate whose items are a chunk's identifier, its position in its file,
//! and whether it is the last chunk of that file.

use queues::IsQueue;
use queues::Queue;
use vstd::prelude::*;

verus! {

/// The growable FIFO queue of the `queues` crate, an opaque value whose
/// content [`queue_items`] names.
#[verifier::external_type_specification]
#[verifier::external_body]
#[verifier::reject_recursive_types(T)]
pub struct ExQueue<T: Clone>(Queue<T>);

/// What the queue holds, oldest item first.
pub uninterp spec fn queue_items(q: Queue<(String, u16, bool)>) -> Seq<(Seq<char>, u16, bool)>;

/// An empty queue.
///
/// Trusted: wraps `Queue::new`, which starts from an empty vector.
#[verifier::external_body]
pub(crate) fn queue_new() -> (q: Queue<(String, u16, bool)>)
    ensures
        queue_items(q) == Seq::<(Seq<char>, u16, bool)>::empty(),
{
    Queue::new()
}

/// Puts `item` behind all others.
///
/// Trusted: wraps `Queue::add`, which pushes the item onto the end of the
/// queue's vector and always succeeds.
#[verifier::external_body]
pub(crate) fn queue_add(q: &mut Queue<(String, u16, bool)>, item: (String, u16, bool))
    ensures
        queue_items(*final(q)) == queue_items(*old(q)).push(item@),
{
    let _ = q.add(item);
}

/// A copy of the oldest item, if there is any.
///
/// Trusted: wraps `Queue::peek`, which clones the first item of the queue's
/// vector and fails on an empty queue only.
#[verifier::external_body]
pub(crate) fn queue_peek(q: &Queue<(String, u16, bool)>) -> (r: Option<(String, u16, bool)>)
    ensures
        match r {
            Some(item) => queue_items(*q).len() > 0 && item@ == queue_items(*q)[0],
            None => queue_items(*q).len() == 0,
        },
{
    q.peek().ok()
}

/// Takes the oldest item out, if there is any.
///
/// Trusted: wraps `Queue::remove`, which removes the first item of the
/// queue's vector and fails on an empty queue only.
#[verifier::external_body]
pub(crate) fn queue_remove(q: &mut Queue<(String, u16, bool)>) -> (r: Option<(String, u16, bool)>)
    ensures
        match r {
            Some(item) => {
                &&& queue_items(*old(q)).len() > 0
                &&& item@ == queue_items(*old(q))[0]
                &&& queue_items(*final(q)) == queue_items(*old(q)).skip(1)
            },
            None => queue_items(*old(q)).len() == 0 && queue_items(*final(q)) == queue_items(
                *old(q),
            ),
        },
{
    q.remove().ok()
}

/// How many items the queue holds.
///
/// Trusted: wraps `Queue::size`, the length of the queue's vector.
#[verifier::external_body]
pub(crate) fn queue_size(q: &Queue<(String, u16, bool)>) -> (r: usize)
    ensures
        r == queue_items(*q).len(),
{
    q.size()
}

} // verus!
