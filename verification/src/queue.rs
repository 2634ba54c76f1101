//! Trusted interface to the bounded lock-free queues of `crossbeam_queue`.
//!
//! Both the executor's ready queue of task ids and the interrupt bridge's
//! scancode queue are `crossbeam_queue::ArrayQueue` values: fixed-capacity
//! FIFO ring buffers whose push and pop never lock or block, which is what
//! lets their producers run in interrupt context. The queue type is
//! opaque here; its contents and capacity are named by uninterpreted
//! functions, and each method the crate calls gets a wrapper whose contract
//! states what the crate's source shows: push appends to the back unless the
//! queue is full, pop removes the front element, capacity never changes.

use crossbeam_queue::ArrayQueue;
use vstd::prelude::*;

verus! {

#[verifier::external_type_specification]
#[verifier::external_body]
#[verifier::reject_recursive_types(T)]
pub struct ExArrayQueue<T>(ArrayQueue<T>);

/// The task ids a ready queue holds, front (next to pop) first.
pub uninterp spec fn task_queue_contents(q: ArrayQueue<u64>) -> Seq<u64>;

/// The capacity a ready queue was created with.
pub uninterp spec fn task_queue_capacity(q: ArrayQueue<u64>) -> nat;

/// The event bytes a scancode queue holds, front (next to pop) first.
pub uninterp spec fn event_queue_contents(q: ArrayQueue<u8>) -> Seq<u8>;

/// The capacity a scancode queue was created with.
pub uninterp spec fn event_queue_capacity(q: ArrayQueue<u8>) -> nat;

/// Relies on `crossbeam_queue::ArrayQueue::new`: an empty queue of the given
/// capacity. `new` panics on a zero or excessively large capacity, so those
/// are excluded here.
#[verifier::external_body]
pub(crate) fn task_queue_new(cap: usize) -> (q: ArrayQueue<u64>)
    requires
        1 <= cap <= 0x1000_0000,
    ensures
        task_queue_contents(q) == Seq::<u64>::empty(),
        task_queue_capacity(q) == cap as nat,
{
    ArrayQueue::new(cap)
}

/// Relies on `crossbeam_queue::ArrayQueue::push`: appends the value to the
/// back of the queue, or hands it back unchanged when the queue is full.
#[verifier::external_body]
pub(crate) fn task_queue_push(q: &mut ArrayQueue<u64>, v: u64) -> (r: Result<(), u64>)
    ensures
        task_queue_capacity(*final(q)) == task_queue_capacity(*old(q)),
        match r {
            Ok(()) => task_queue_contents(*old(q)).len() < task_queue_capacity(*old(q))
                && task_queue_contents(*final(q)) == task_queue_contents(*old(q)).push(v),
            Err(given_back) => given_back == v && task_queue_contents(*old(q)).len()
                >= task_queue_capacity(*old(q)) && task_queue_contents(*final(q))
                == task_queue_contents(*old(q)),
        },
{
    q.push(v)
}

/// Relies on `crossbeam_queue::ArrayQueue::pop`: removes and returns the
/// front element, or returns `None` when the queue is empty.
#[verifier::external_body]
pub(crate) fn task_queue_pop(q: &mut ArrayQueue<u64>) -> (r: Option<u64>)
    ensures
        task_queue_capacity(*final(q)) == task_queue_capacity(*old(q)),
        match r {
            Some(v) => task_queue_contents(*old(q)).len() > 0 && v == task_queue_contents(
                *old(q),
            )[0] && task_queue_contents(*final(q)) == task_queue_contents(*old(q)).drop_first(),
            None => task_queue_contents(*old(q)).len() == 0 && task_queue_contents(*final(q))
                == task_queue_contents(*old(q)),
        },
{
    q.pop()
}

/// Relies on `crossbeam_queue::ArrayQueue::is_empty`.
#[verifier::external_body]
pub(crate) fn task_queue_is_empty(q: &ArrayQueue<u64>) -> (r: bool)
    ensures
        r == (task_queue_contents(*q).len() == 0),
{
    q.is_empty()
}

/// Relies on `crossbeam_queue::ArrayQueue::len`.
#[verifier::external_body]
pub(crate) fn task_queue_len(q: &ArrayQueue<u64>) -> (r: usize)
    ensures
        r as nat == task_queue_contents(*q).len(),
{
    q.len()
}

/// Relies on `crossbeam_queue::ArrayQueue::new`: an empty queue of the given
/// capacity. `new` panics on a zero or excessively large capacity, so those
/// are excluded here.
#[verifier::external_body]
pub(crate) fn event_queue_new(cap: usize) -> (q: ArrayQueue<u8>)
    requires
        1 <= cap <= 0x1000_0000,
    ensures
        event_queue_contents(q) == Seq::<u8>::empty(),
        event_queue_capacity(q) == cap as nat,
{
    ArrayQueue::new(cap)
}

/// Relies on `crossbeam_queue::ArrayQueue::push`: appends the value to the
/// back of the queue, or hands it back unchanged when the queue is full.
#[verifier::external_body]
pub(crate) fn event_queue_push(q: &mut ArrayQueue<u8>, v: u8) -> (r: Result<(), u8>)
    ensures
        event_queue_capacity(*final(q)) == event_queue_capacity(*old(q)),
        match r {
            Ok(()) => event_queue_contents(*old(q)).len() < event_queue_capacity(*old(q))
                && event_queue_contents(*final(q)) == event_queue_contents(*old(q)).push(v),
            Err(given_back) => given_back == v && event_queue_contents(*old(q)).len()
                >= event_queue_capacity(*old(q)) && event_queue_contents(*final(q))
                == event_queue_contents(*old(q)),
        },
{
    q.push(v)
}

/// Relies on `crossbeam_queue::ArrayQueue::pop`: removes and returns the
/// front element, or returns `None` when the queue is empty.
#[verifier::external_body]
pub(crate) fn event_queue_pop(q: &mut ArrayQueue<u8>) -> (r: Option<u8>)
    ensures
        event_queue_capacity(*final(q)) == event_queue_capacity(*old(q)),
        match r {
            Some(v) => event_queue_contents(*old(q)).len() > 0 && v == event_queue_contents(
                *old(q),
            )[0] && event_queue_contents(*final(q)) == event_queue_contents(*old(q)).drop_first(),
            None => event_queue_contents(*old(q)).len() == 0 && event_queue_contents(*final(q))
                == event_queue_contents(*old(q)),
        },
{
    q.pop()
}

/// Relies on `crossbeam_queue::ArrayQueue::len`.
#[verifier::external_body]
pub(crate) fn event_queue_len(q: &ArrayQueue<u8>) -> (r: usize)
    ensures
        r as nat == event_queue_contents(*q).len(),
{
    q.len()
}

} // verus!
