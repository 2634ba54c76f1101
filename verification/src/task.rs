//! Cooperatively scheduled tasks.
//!
//! A task is a unit of resumable work with a unique id. Its computation is an
//! explicit state machine stepped by `poll`: each poll either finishes the
//! task (`Ready`) or suspends it (`Pending`) until some wake handle puts its
//! id back on the ready queue. Two computations exist: a countdown that
//! suspends a fixed number of times before finishing (the shape test tasks
//! take), and the event consumer, which drains the scancode bridge through
//! the registration protocol and never finishes.

use crate::executor::TaskWaker;
use crate::keyboard::{BridgeView, PollNext, ScancodeBridge, ScancodeStream};
use vstd::prelude::*;

verus! {

/// A process-wide unique task identifier.
pub type TaskId = u64;

/// What one poll of a task reports: the computation finished, or it suspended
/// until its wake handle fires.
#[derive(Debug, Clone, Copy, PartialEq, Eq)]
pub enum Poll {
    Ready,
    Pending,
}

/// A task's resumable computation.
pub enum TaskBody {
    /// Reports `Pending` the given number of times, then `Ready`.
    Countdown { polls_left: u64 },
    /// Drains the scancode bridge: collects every pending event byte, then
    /// registers its wake handle and suspends. Never finishes.
    EventConsumer { stream: ScancodeStream, received: Vec<u8> },
}

/// Ghost view of a task's computation state.
pub ghost enum TaskBodyView {
    Countdown { polls_left: u64 },
    EventConsumer { received: Seq<u8> },
}

impl View for TaskBody {
    type V = TaskBodyView;

    closed spec fn view(&self) -> TaskBodyView {
        match self {
            TaskBody::Countdown { polls_left } => TaskBodyView::Countdown {
                polls_left: *polls_left,
            },
            TaskBody::EventConsumer { stream, received } => TaskBodyView::EventConsumer {
                received: received@,
            },
        }
    }
}

/// Ghost view of a task: its id and its computation state.
pub ghost struct TaskView {
    pub id: TaskId,
    pub body: TaskBodyView,
}

pub struct Task {
    id: TaskId,
    body: TaskBody,
}

impl View for Task {
    type V = TaskView;

    closed spec fn view(&self) -> TaskView {
        TaskView { id: self.id, body: self.body@ }
    }
}

/// What one poll does, as a function of the task's state, the bridge's state
/// and the id carried by the wake handle the poll runs with: the new task
/// state, the new bridge state, and whether the task finished.
pub open spec fn spec_poll(body: TaskBodyView, bridge: BridgeView, wid: TaskId) -> (
    TaskBodyView,
    BridgeView,
    bool,
) {
    match body {
        TaskBodyView::Countdown { polls_left } => {
            if polls_left == 0 {
                (body, bridge, true)
            } else {
                (TaskBodyView::Countdown { polls_left: (polls_left - 1) as u64 }, bridge, false)
            }
        },
        TaskBodyView::EventConsumer { received } => {
            let body2 = TaskBodyView::EventConsumer { received: received + bridge.events };
            let bridge2 = BridgeView {
                initialized: bridge.initialized,
                events: Seq::empty(),
                capacity: bridge.capacity,
                registered: Some(wid),
            };
            (body2, bridge2, false)
        },
    }
}

impl Task {
    pub fn new(id: TaskId, body: TaskBody) -> (t: Task)
        ensures
            t@ == (TaskView { id, body: body@ }),
    {
        Task { id, body }
    }

    pub fn id(&self) -> (r: TaskId)
        ensures
            r == self@.id,
    {
        self.id
    }

    /// The bytes an event consumer has collected so far; `None` for a
    /// countdown task.
    pub fn received_so_far(&self) -> (r: Option<Vec<u8>>)
        ensures
            match r {
                Some(v) => (self@.body matches TaskBodyView::EventConsumer { received } && v@
                    == received),
                None => self@.body is Countdown,
            },
    {
        match &self.body {
            TaskBody::Countdown { .. } => None,
            TaskBody::EventConsumer { received, .. } => {
                let mut out: Vec<u8> = Vec::new();
                let mut i: usize = 0;
                while i < received.len()
                    invariant
                        i <= received.len(),
                        out@ == received@.subrange(0, i as int),
                    decreases received.len() - i,
                {
                    out.push(received[i]);
                    i = i + 1;
                    proof {
                        assert(out@ =~= received@.subrange(0, i as int));
                    }
                }
                proof {
                    assert(out@ =~= received@);
                }
                Some(out)
            },
        }
    }

    /// One resume attempt of the task's computation, run with the wake handle
    /// `waker`. An event consumer polled before the scancode queue's one-time
    /// initialization is a bring-up ordering bug, excluded up front.
    pub fn poll(&mut self, bridge: &mut ScancodeBridge, waker: &TaskWaker) -> (r: Poll)
        requires
            old(bridge).wf(),
            old(self)@.body is EventConsumer ==> old(bridge)@.initialized,
        ensures
            final(bridge).wf(),
            final(self)@.id == old(self)@.id,
            (final(self)@.body, final(bridge)@, r is Ready) == spec_poll(
                old(self)@.body,
                old(bridge)@,
                waker.id(),
            ),
    {
        match &mut self.body {
            TaskBody::Countdown { polls_left } => {
                if *polls_left == 0 {
                    Poll::Ready
                } else {
                    *polls_left = *polls_left - 1;
                    Poll::Pending
                }
            },
            TaskBody::EventConsumer { stream, received } => {
                let ghost prev_received = received@;
                let ghost prev_bridge = old(bridge)@;
                let mut done = false;
                while !done
                    invariant
                        bridge.wf(),
                        bridge@.initialized,
                        bridge@.capacity == prev_bridge.capacity,
                        received@ + bridge@.events == prev_received + prev_bridge.events,
                        if done {
                            bridge@.events.len() == 0 && bridge@.registered == Some(waker.id())
                        } else {
                            bridge@.registered == prev_bridge.registered
                        },
                    decreases bridge@.events.len(), (if done { 0int } else { 1int }),
                {
                    let ghost loop_events = bridge@.events;
                    let ghost loop_received = received@;
                    match stream.poll_next(bridge, waker) {
                        PollNext::Ready(code) => {
                            received.push(code);
                            proof {
                                assert(received@ + bridge@.events =~= loop_received
                                    + loop_events);
                            }
                        },
                        PollNext::Pending => {
                            done = true;
                        },
                    }
                }
                proof {
                    assert(received@ =~= prev_received + prev_bridge.events);
                    assert(bridge@.events =~= Seq::<u8>::empty());
                }
                Poll::Pending
            },
        }
    }
}

} // verus!
