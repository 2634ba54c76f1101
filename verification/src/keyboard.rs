//! The interrupt-to-task event bridge for keyboard scancodes.
//!
//! One byte-sized hardware event at a time moves from interrupt context into
//! cooperative-task context through two pieces of shared state: a bounded
//! lock-free queue of raw scancodes, initialized lazily exactly once, and a
//! single-slot registration cell holding the parked consumer's wake handle.
//! The producer (`add_scancode`, called from the interrupt handler) pushes
//! and then wakes; the consumer (`ScancodeStream::poll_next`) pops on the
//! fast path and otherwise registers its handle *before* re-checking the
//! queue — that ordering closes the race where a producer fires between an
//! initial empty-check and the registration.

use crate::executor::{ReadyQueue, TaskWaker};
use crate::queue::{
    event_queue_capacity, event_queue_contents, event_queue_len, event_queue_new, event_queue_pop,
    event_queue_push,
};
use crossbeam_queue::ArrayQueue;
use vstd::prelude::*;

verus! {

/// Capacity of the scancode queue used by the kernel.
pub const SCANCODE_QUEUE_CAPACITY: usize = 100;

/// Ghost view of the bridge: whether the one-time initialization has run, the
/// pending event bytes in arrival order, the queue's capacity, and the task
/// id registered by a parked consumer.
pub ghost struct BridgeView {
    pub initialized: bool,
    pub events: Seq<u8>,
    pub capacity: nat,
    pub registered: Option<u64>,
}

/// The bridge's shared state: the lazily initialized scancode queue and the
/// wake-registration cell.
pub struct ScancodeBridge {
    queue: Option<ArrayQueue<u8>>,
    waker: Option<TaskWaker>,
}

impl View for ScancodeBridge {
    type V = BridgeView;

    closed spec fn view(&self) -> BridgeView {
        BridgeView {
            initialized: self.queue is Some,
            events: match self.queue {
                Some(q) => event_queue_contents(q),
                None => Seq::empty(),
            },
            capacity: match self.queue {
                Some(q) => event_queue_capacity(q),
                None => 0,
            },
            registered: match self.waker {
                Some(w) => Some(w.id()),
                None => None,
            },
        }
    }
}

impl ScancodeBridge {
    /// The bridge's invariant: an initialized queue holds at most its
    /// capacity; before initialization nothing can have registered.
    pub open spec fn wf(&self) -> bool {
        &&& self@.initialized ==> 1 <= self@.capacity && self@.events.len() <= self@.capacity
        &&& !self@.initialized ==> self@.registered is None
    }

    /// The bridge before its one-time initialization.
    pub fn new() -> (b: ScancodeBridge)
        ensures
            b.wf(),
            b@ == (BridgeView {
                initialized: false,
                events: Seq::<u8>::empty(),
                capacity: 0,
                registered: None::<u64>,
            }),
    {
        ScancodeBridge { queue: None, waker: None }
    }

    /// One-time initialization of the scancode queue. Running it twice is a
    /// bring-up ordering bug, excluded up front.
    pub fn init_with_capacity(&mut self, capacity: usize)
        requires
            old(self).wf(),
            !old(self)@.initialized,
            1 <= capacity <= 0x1000_0000,
        ensures
            final(self).wf(),
            final(self)@ == (BridgeView {
                initialized: true,
                events: Seq::<u8>::empty(),
                capacity: capacity as nat,
                registered: None::<u64>,
            }),
    {
        self.queue = Some(event_queue_new(capacity));
    }

    pub fn is_initialized(&self) -> (r: bool)
        ensures
            r == self@.initialized,
    {
        self.queue.is_some()
    }

    /// How many events sit in the queue, undelivered.
    pub fn pending_events(&self) -> (r: usize)
        ensures
            r as nat == self@.events.len(),
    {
        match &self.queue {
            Some(q) => event_queue_len(q),
            None => 0,
        }
    }
}

/// What one poll of the stream returns: the next pending event byte, or a
/// suspension with the caller's wake handle left registered.
#[derive(Debug, Clone, Copy, PartialEq, Eq)]
pub enum PollNext {
    Ready(u8),
    Pending,
}

/// Outcome of one event delivery, reported so the caller can emit the
/// matching diagnostic: delivered, dropped on a full queue (accepted policy
/// under overload, not an error), or refused because the queue was never
/// initialized (a bring-up ordering bug).
#[derive(Debug, Clone, Copy, PartialEq, Eq)]
pub enum ScancodeStatus {
    Enqueued,
    QueueFull,
    Uninitialized,
}

/// What one event delivery does to the bridge and the ready queue: nothing
/// before initialization; nothing but a drop report on a full queue; else the
/// event joins the queue and the registered consumer, if any, is woken — its
/// id pushed onto the ready queue and the registration consumed.
pub open spec fn spec_add_scancode(bridge: BridgeView, ready: Seq<u64>, scancode: u8) -> (
    BridgeView,
    Seq<u64>,
    ScancodeStatus,
) {
    if !bridge.initialized {
        (bridge, ready, ScancodeStatus::Uninitialized)
    } else if bridge.events.len() >= bridge.capacity {
        (bridge, ready, ScancodeStatus::QueueFull)
    } else {
        let bridge2 = BridgeView {
            initialized: bridge.initialized,
            events: bridge.events.push(scancode),
            capacity: bridge.capacity,
            registered: None,
        };
        let ready2 = match bridge.registered {
            Some(id) => ready.push(id),
            None => ready,
        };
        (bridge2, ready2, ScancodeStatus::Enqueued)
    }
}

/// Deliver one raw event from the interrupt handler: push it onto the
/// scancode queue and, on success, wake the registered consumer, consuming
/// the registration. Waking onto a full ready queue is fatal (a capacity
/// miscalibration), excluded up front.
pub fn add_scancode(bridge: &mut ScancodeBridge, ready: &mut ReadyQueue, scancode: u8) -> (r:
    ScancodeStatus)
    requires
        old(bridge).wf(),
        old(ready).wf(),
        (old(bridge)@.initialized && old(bridge)@.events.len() < old(bridge)@.capacity && old(
            bridge
        )@.registered is Some) ==> old(ready)@.len() < old(ready).capacity(),
    ensures
        final(bridge).wf(),
        final(ready).wf(),
        final(ready).capacity() == old(ready).capacity(),
        (final(bridge)@, final(ready)@, r) == spec_add_scancode(
            old(bridge)@,
            old(ready)@,
            scancode,
        ),
{
    match &mut bridge.queue {
        None => ScancodeStatus::Uninitialized,
        Some(q) => {
            match event_queue_push(q, scancode) {
                Err(_) => ScancodeStatus::QueueFull,
                Ok(()) => {
                    let parked = bridge.waker;
                    bridge.waker = None;
                    if let Some(w) = parked {
                        w.wake(ready);
                    }
                    ScancodeStatus::Enqueued
                },
            }
        },
    }
}

/// The consumer's handle onto the scancode queue. Constructing it runs the
/// queue's one-time initialization.
pub struct ScancodeStream {
    _private: (),
}

impl ScancodeStream {
    /// Initialize the scancode queue, exactly once, with the capacity the
    /// kernel uses; a second call is a bring-up ordering bug, excluded up
    /// front.
    pub fn new(bridge: &mut ScancodeBridge) -> (s: ScancodeStream)
        requires
            old(bridge).wf(),
            !old(bridge)@.initialized,
        ensures
            final(bridge).wf(),
            final(bridge)@ == (BridgeView {
                initialized: true,
                events: Seq::<u8>::empty(),
                capacity: SCANCODE_QUEUE_CAPACITY as nat,
                registered: None::<u64>,
            }),
    {
        Self::with_queue_capacity(bridge, SCANCODE_QUEUE_CAPACITY)
    }

    /// As `new`, with an explicit queue capacity.
    pub fn with_queue_capacity(bridge: &mut ScancodeBridge, capacity: usize) -> (s: ScancodeStream)
        requires
            old(bridge).wf(),
            !old(bridge)@.initialized,
            1 <= capacity <= 0x1000_0000,
        ensures
            final(bridge).wf(),
            final(bridge)@ == (BridgeView {
                initialized: true,
                events: Seq::<u8>::empty(),
                capacity: capacity as nat,
                registered: None::<u64>,
            }),
    {
        bridge.init_with_capacity(capacity);
        ScancodeStream { _private: () }
    }

    /// One poll of the stream. Fast path: a non-empty queue yields its front
    /// event at once, without touching the registration cell. Slow path: the
    /// caller's wake handle is registered *first*, and only then is the queue
    /// re-checked, so a producer firing between the two steps is never lost;
    /// if the re-check still finds the queue empty the poll suspends, leaving
    /// the registration in place.
    pub fn poll_next(&self, bridge: &mut ScancodeBridge, waker: &TaskWaker) -> (r: PollNext)
        requires
            old(bridge).wf(),
            old(bridge)@.initialized,
        ensures
            final(bridge).wf(),
            final(bridge)@.initialized,
            final(bridge)@.capacity == old(bridge)@.capacity,
            match r {
                PollNext::Ready(code) => {
                    &&& old(bridge)@.events.len() > 0
                    &&& code == old(bridge)@.events[0]
                    &&& final(bridge)@.events == old(bridge)@.events.drop_first()
                    &&& final(bridge)@.registered == old(bridge)@.registered
                },
                PollNext::Pending => {
                    &&& old(bridge)@.events.len() == 0
                    &&& final(bridge)@.events == old(bridge)@.events
                    &&& final(bridge)@.registered == Some(waker.id())
                },
            },
    {
        match &mut bridge.queue {
            None => {
                proof {
                    assert(false);
                }
                PollNext::Pending
            },
            Some(q) => {
                // fast path: data is already there
                if let Some(code) = event_queue_pop(q) {
                    return PollNext::Ready(code);
                }
                // slow path: register interest, then re-check the queue —
                // this order closes the race against the producer
                bridge.waker = Some(*waker);
                match event_queue_pop(q) {
                    Some(code) => {
                        // a producer fired between the first check and the
                        // registration; consume the registration again
                        bridge.waker = None;
                        PollNext::Ready(code)
                    },
                    None => PollNext::Pending,
                }
            },
        }
    }
}

/// No lost wakeup: when the consumer has registered interest and an event is
/// delivered before the idle check runs, the delivery wakes the consumer —
/// its id lands on the ready queue — so the idle check sees pending work and
/// refuses to halt, and the event itself stays queued for the next sweep.
pub proof fn lemma_no_lost_wakeup(bridge: BridgeView, ready: Seq<u64>, scancode: u8, cid: u64)
    requires
        bridge.initialized,
        bridge.registered == Some(cid),
        bridge.events.len() < bridge.capacity,
    ensures
        ({
            let (bridge2, ready2, status) = spec_add_scancode(bridge, ready, scancode);
            &&& status == ScancodeStatus::Enqueued
            &&& ready2.len() > 0 && ready2[ready2.len() - 1] == cid
            &&& bridge2.events.len() > 0
        }),
{
}

/// Event drop under overload: a delivery to a full queue is dropped and
/// reported, with the queue, the registration and the ready queue unchanged —
/// the queue never exceeds its capacity.
pub proof fn lemma_event_drop_under_overload(bridge: BridgeView, ready: Seq<u64>, scancode: u8)
    requires
        bridge.initialized,
        bridge.events.len() <= bridge.capacity,
    ensures
        bridge.events.len() == bridge.capacity ==> spec_add_scancode(bridge, ready, scancode) == (
            bridge,
            ready,
            ScancodeStatus::QueueFull,
        ),
        spec_add_scancode(bridge, ready, scancode).0.events.len() <= bridge.capacity,
{
}

} // verus!
