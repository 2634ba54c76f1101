//! The cooperative task executor.
//!
//! The executor owns the task table, a cache of wake handles, and drains a
//! bounded FIFO ready queue of task ids. One sweep (`run_ready_tasks`) pops
//! ids until the queue is empty, skipping stale ids silently, polling each
//! live task with its cached wake handle, and removing a task — and its
//! cached handle — the moment it reports completion. Between sweeps the run
//! loop (outside this crate, since it halts the CPU) asks the idle gate
//! whether any ready work exists; `ReadyQueue::is_empty` is that check, and
//! it must run with interrupts disabled so a wake cannot slip between the
//! check and the halt.

use crate::keyboard::{BridgeView, ScancodeBridge};
use crate::queue::{
    task_queue_capacity, task_queue_contents, task_queue_is_empty, task_queue_len, task_queue_new,
    task_queue_pop, task_queue_push,
};
use crate::task::{spec_poll, Poll, Task, TaskBodyView, TaskId, TaskView};
use crossbeam_queue::ArrayQueue;
use std::collections::BTreeMap;
use vstd::prelude::*;

verus! {

broadcast use vstd::laws_cmp::group_laws_cmp;

/// Capacity of the executor's ready queue.
pub const TASK_QUEUE_CAPACITY: usize = 100;

/// The bounded FIFO of task ids awaiting a poll, shared — by explicit `&mut`
/// in this single-threaded rendering — between the executor's sweep and every
/// wake handle.
pub struct ReadyQueue {
    queue: ArrayQueue<u64>,
}

impl View for ReadyQueue {
    type V = Seq<u64>;

    closed spec fn view(&self) -> Seq<u64> {
        task_queue_contents(self.queue)
    }
}

impl ReadyQueue {
    pub closed spec fn capacity(&self) -> nat {
        task_queue_capacity(self.queue)
    }

    pub open spec fn wf(&self) -> bool {
        self@.len() <= self.capacity() && 1 <= self.capacity()
    }

    pub fn new() -> (q: ReadyQueue)
        ensures
            q.wf(),
            q@ == Seq::<u64>::empty(),
            q.capacity() == TASK_QUEUE_CAPACITY as nat,
    {
        ReadyQueue { queue: task_queue_new(TASK_QUEUE_CAPACITY) }
    }

    pub fn len(&self) -> (r: usize)
        ensures
            r as nat == self@.len(),
    {
        task_queue_len(&self.queue)
    }

    /// The idle gate's check: the CPU may halt between sweeps only when this
    /// holds, and only if interrupts were disabled before the check and are
    /// re-enabled atomically with the halt — otherwise a wake arriving
    /// between check and halt would be lost.
    pub fn is_empty(&self) -> (r: bool)
        ensures
            r == (self@.len() == 0),
    {
        task_queue_is_empty(&self.queue)
    }

    pub(crate) fn push(&mut self, id: TaskId)
        requires
            old(self).wf(),
            old(self)@.len() < old(self).capacity(),
        ensures
            final(self).wf(),
            final(self)@ == old(self)@.push(id),
            final(self).capacity() == old(self).capacity(),
    {
        let r = task_queue_push(&mut self.queue, id);
        proof {
            assert(r is Ok);
        }
    }

    pub(crate) fn pop(&mut self) -> (r: Option<TaskId>)
        requires
            old(self).wf(),
        ensures
            final(self).wf(),
            final(self).capacity() == old(self).capacity(),
            match r {
                Some(id) => old(self)@.len() > 0 && id == old(self)@[0] && final(self)@ == old(
                    self,
                )@.drop_first(),
                None => old(self)@.len() == 0 && final(self)@ == old(self)@,
            },
    {
        task_queue_pop(&mut self.queue)
    }
}

/// A wake handle: invoking it pushes its task's id onto the ready queue so a
/// later sweep re-polls the task. Handles are cheap to copy and cached per
/// task id so repeated suspensions do not build new ones.
#[derive(Debug, Clone, Copy)]
pub struct TaskWaker {
    task_id: TaskId,
}

impl TaskWaker {
    pub closed spec fn id(&self) -> TaskId {
        self.task_id
    }

    pub fn new(task_id: TaskId) -> (w: TaskWaker)
        ensures
            w.id() == task_id,
    {
        TaskWaker { task_id }
    }

    /// Mark the task ready by pushing its id. A full ready queue here is a
    /// capacity miscalibration and fatal, excluded up front. Waking an id
    /// whose task already completed is allowed: the next sweep skips it.
    pub fn wake(&self, ready: &mut ReadyQueue)
        requires
            old(ready).wf(),
            old(ready)@.len() < old(ready).capacity(),
        ensures
            final(ready).wf(),
            final(ready)@ == old(ready)@.push(self.id()),
            final(ready).capacity() == old(ready).capacity(),
    {
        ready.push(self.task_id);
    }
}

/// The view of a task table.
pub open spec fn tasks_view_of(m: Map<u64, Task>) -> Map<u64, TaskView> {
    m.map_values(|t: Task| t@)
}

proof fn lemma_tasks_view_insert(m: Map<u64, Task>, k: u64, t: Task)
    ensures
        tasks_view_of(m.insert(k, t)) == tasks_view_of(m).insert(k, t@),
{
    assert(tasks_view_of(m.insert(k, t)) =~= tasks_view_of(m).insert(k, t@));
}

proof fn lemma_tasks_view_remove(m: Map<u64, Task>, k: u64)
    ensures
        tasks_view_of(m.remove(k)) == tasks_view_of(m).remove(k),
{
    assert(tasks_view_of(m.remove(k)) =~= tasks_view_of(m).remove(k));
}

/// What one sweep of the executor does, processed front to back along the
/// ready queue's contents: a stale id (no task) is skipped; a live task gets
/// its wake handle cached, is polled, and is either removed together with its
/// cache entry (completed) or left updated in the table (pending).
pub open spec fn spec_sweep(
    tasks: Map<u64, TaskView>,
    cache: Set<u64>,
    ready: Seq<u64>,
    bridge: BridgeView,
) -> (Map<u64, TaskView>, Set<u64>, BridgeView)
    decreases ready.len(),
{
    if ready.len() == 0 {
        (tasks, cache, bridge)
    } else {
        let id = ready[0];
        let rest = ready.drop_first();
        if !tasks.dom().contains(id) {
            spec_sweep(tasks, cache, rest, bridge)
        } else {
            let cache1 = cache.insert(id);
            let step = spec_poll(tasks[id].body, bridge, id);
            if step.2 {
                spec_sweep(tasks.remove(id), cache1.remove(id), rest, step.1)
            } else {
                spec_sweep(
                    tasks.insert(id, TaskView { id, body: step.0 }),
                    cache1,
                    rest,
                    step.1,
                )
            }
        }
    }
}

/// An id unknown to both the task table and the wake-handle cache stays
/// unknown across a sweep: a sweep never invents tasks or handles.
proof fn lemma_sweep_preserves_absent(
    tasks: Map<u64, TaskView>,
    cache: Set<u64>,
    ready: Seq<u64>,
    bridge: BridgeView,
    id: u64,
)
    requires
        !tasks.dom().contains(id),
        !cache.contains(id),
    ensures
        !spec_sweep(tasks, cache, ready, bridge).0.dom().contains(id),
        !spec_sweep(tasks, cache, ready, bridge).1.contains(id),
    decreases ready.len(),
{
    if ready.len() > 0 {
        let hd = ready[0];
        let rest = ready.drop_first();
        if !tasks.dom().contains(hd) {
            lemma_sweep_preserves_absent(tasks, cache, rest, bridge, id);
        } else {
            let cache1 = cache.insert(hd);
            let step = spec_poll(tasks[hd].body, bridge, hd);
            if step.2 {
                lemma_sweep_preserves_absent(tasks.remove(hd), cache1.remove(hd), rest, step.1, id);
            } else {
                lemma_sweep_preserves_absent(
                    tasks.insert(hd, TaskView { id: hd, body: step.0 }),
                    cache1,
                    rest,
                    step.1,
                    id,
                );
            }
        }
    }
}

/// Executor completion: a task whose computation finishes on its very next
/// poll — a countdown with no suspensions left — is gone from the task table
/// and from the wake-handle cache after one sweep of a ready queue holding
/// its id.
pub proof fn lemma_completed_task_removed(
    tasks: Map<u64, TaskView>,
    cache: Set<u64>,
    ready: Seq<u64>,
    bridge: BridgeView,
    id: u64,
)
    requires
        tasks.dom().contains(id),
        tasks[id].body == (TaskBodyView::Countdown { polls_left: 0u64 }),
        ready.contains(id),
    ensures
        !spec_sweep(tasks, cache, ready, bridge).0.dom().contains(id),
        !spec_sweep(tasks, cache, ready, bridge).1.contains(id),
    decreases ready.len(),
{
    let hd = ready[0];
    let rest = ready.drop_first();
    if hd == id {
        let cache1 = cache.insert(id);
        let step = spec_poll(tasks[id].body, bridge, id);
        assert(step.2);
        lemma_sweep_preserves_absent(tasks.remove(id), cache1.remove(id), rest, step.1, id);
    } else {
        let j = choose|j: int| 0 <= j < ready.len() && ready[j] == id;
        assert(rest[j - 1] == id);
        assert(rest.contains(id));
        if !tasks.dom().contains(hd) {
            lemma_completed_task_removed(tasks, cache, rest, bridge, id);
        } else {
            let cache1 = cache.insert(hd);
            let step = spec_poll(tasks[hd].body, bridge, hd);
            if step.2 {
                lemma_completed_task_removed(tasks.remove(hd), cache1.remove(hd), rest, step.1, id);
            } else {
                let tasks2 = tasks.insert(hd, TaskView { id: hd, body: step.0 });
                assert(tasks2[id] == tasks[id]);
                lemma_completed_task_removed(tasks2, cache1, rest, step.1, id);
            }
        }
    }
}

/// Wake-after-complete is benign: an id whose task no longer exists — say a
/// cached wake handle fired after its task completed — is skipped by the
/// sweep as if it had never been queued, changing neither the task table, the
/// cache, nor the bridge.
pub proof fn lemma_stale_id_ignored(
    tasks: Map<u64, TaskView>,
    cache: Set<u64>,
    ready: Seq<u64>,
    bridge: BridgeView,
    id: u64,
)
    requires
        !tasks.dom().contains(id),
    ensures
        spec_sweep(tasks, cache, seq![id] + ready, bridge) == spec_sweep(
            tasks,
            cache,
            ready,
            bridge,
        ),
{
    let full = seq![id] + ready;
    assert(full.len() == ready.len() + 1);
    assert(full[0] == id);
    assert(full.drop_first() =~= ready);
}

/// The executor: the task table and the wake-handle cache. The ready queue
/// and the event bridge are owned by the surrounding kernel and handed to
/// each sweep by reference, as every wake handle and the interrupt producer
/// share them.
pub struct Executor {
    tasks: BTreeMap<u64, Task>,
    waker_cache: BTreeMap<u64, TaskWaker>,
}

impl Executor {
    /// The task table: each known task's state, by id.
    pub closed spec fn tasks(&self) -> Map<u64, TaskView> {
        tasks_view_of(self.tasks@)
    }

    /// The ids that have a cached wake handle.
    pub closed spec fn wakers(&self) -> Set<u64> {
        self.waker_cache@.dom()
    }

    /// Tasks are tabled under their own id; cached handles wake the id they
    /// are cached under.
    pub closed spec fn wf(&self) -> bool {
        &&& forall|id: u64|
            self.tasks@.dom().contains(id) ==> (#[trigger] self.tasks@[id])@.id == id
        &&& forall|id: u64|
            self.waker_cache@.dom().contains(id) ==> (#[trigger] self.waker_cache@[id]).id() == id
    }

    pub fn new() -> (e: Executor)
        ensures
            e.wf(),
            e.tasks() == Map::<u64, TaskView>::empty(),
            e.wakers() == Set::<u64>::empty(),
    {
        let e = Executor { tasks: BTreeMap::new(), waker_cache: BTreeMap::new() };
        proof {
            assert(e.tasks() =~= Map::<u64, TaskView>::empty());
            assert(e.wakers() =~= Set::<u64>::empty());
        }
        e
    }

    pub fn contains_task(&self, id: TaskId) -> (r: bool)
        ensures
            r == self.tasks().dom().contains(id),
    {
        self.tasks.contains_key(&id)
    }

    pub fn has_cached_waker(&self, id: TaskId) -> (r: bool)
        ensures
            r == self.wakers().contains(id),
    {
        self.waker_cache.contains_key(&id)
    }

    /// The bytes an event-consumer task has collected so far; `None` for an
    /// unknown id or a task of another kind.
    pub fn received_events(&self, id: TaskId) -> (r: Option<Vec<u8>>)
        ensures
            match r {
                Some(v) => self.tasks().dom().contains(id) && (self.tasks()[id].body matches
                TaskBodyView::EventConsumer { received } && v@ == received),
                None => !self.tasks().dom().contains(id) || self.tasks()[id].body is Countdown,
            },
    {
        match self.tasks.get(&id) {
            None => None,
            Some(task) => task.received_so_far(),
        }
    }

    /// Insert a task under its id and enqueue it as ready. A duplicate id is
    /// an id-generation bug and fatal; a full ready queue on spawn is a
    /// capacity miscalibration and fatal; both are excluded up front.
    pub fn spawn(&mut self, task: Task, ready: &mut ReadyQueue)
        requires
            old(self).wf(),
            old(ready).wf(),
            !old(self).tasks().dom().contains(task@.id),
            old(ready)@.len() < old(ready).capacity(),
        ensures
            final(self).wf(),
            final(ready).wf(),
            final(self).tasks() == old(self).tasks().insert(task@.id, task@),
            final(self).wakers() == old(self).wakers(),
            final(ready)@ == old(ready)@.push(task@.id),
            final(ready).capacity() == old(ready).capacity(),
    {
        let task_id = task.id();
        let ghost gtask = task;
        let replaced = self.tasks.insert(task_id, task);
        proof {
            lemma_tasks_view_insert(old(self).tasks@, task_id, gtask);
        }
        ready.push(task_id);
    }

    /// One sweep: pop ids from the ready queue until it is empty. A stale id
    /// — its task already completed, or it was enqueued twice — is skipped
    /// silently; a live task is polled with its cached (or newly cached) wake
    /// handle, removed together with the cache entry when it completes, and
    /// left dormant in the table when it suspends.
    pub fn run_ready_tasks(&mut self, ready: &mut ReadyQueue, bridge: &mut ScancodeBridge)
        requires
            old(self).wf(),
            old(ready).wf(),
            old(bridge).wf(),
            old(bridge)@.initialized,
        ensures
            final(self).wf(),
            final(ready).wf(),
            final(bridge).wf(),
            final(ready)@ == Seq::<u64>::empty(),
            final(ready).capacity() == old(ready).capacity(),
            (final(self).tasks(), final(self).wakers(), final(bridge)@) == spec_sweep(
                old(self).tasks(),
                old(self).wakers(),
                old(ready)@,
                old(bridge)@,
            ),
    {
        loop
            invariant
                self.wf(),
                ready.wf(),
                bridge.wf(),
                bridge@.initialized,
                ready.capacity() == old(ready).capacity(),
                spec_sweep(self.tasks(), self.wakers(), ready@, bridge@) == spec_sweep(
                    old(self).tasks(),
                    old(self).wakers(),
                    old(ready)@,
                    old(bridge)@,
                ),
            decreases ready@.len(),
        {
            let ghost pre_tasks = self.tasks();
            let ghost pre_wakers = self.wakers();
            let ghost pre_ready = ready@;
            let ghost pre_bridge = bridge@;
            let next = ready.pop();
            match next {
                None => {
                    proof {
                        assert(ready@ =~= Seq::<u64>::empty());
                    }
                    return ;
                },
                Some(task_id) => {
                    proof {
                        assert(pre_ready[0] == task_id);
                        assert(pre_ready.drop_first() == ready@);
                    }
                    if !self.tasks.contains_key(&task_id) {
                        // the task no longer exists: it completed after being
                        // queued, or was queued twice — expected, not an error
                        proof {
                            assert(!pre_tasks.dom().contains(task_id));
                            assert(spec_sweep(pre_tasks, pre_wakers, pre_ready, pre_bridge)
                                == spec_sweep(pre_tasks, pre_wakers, ready@, pre_bridge));
                        }
                    } else {
                        // fetch or lazily build the task's cached wake handle
                        let ghost cache_exec_before = self.waker_cache@;
                        if !self.waker_cache.contains_key(&task_id) {
                            self.waker_cache.insert(task_id, TaskWaker::new(task_id));
                        }
                        proof {
                            assert(self.wakers() =~= pre_wakers.insert(task_id));
                            assert forall|id: u64| self.waker_cache@.dom().contains(id) implies (
                            #[trigger] self.waker_cache@[id]).id() == id by {
                                if id != task_id {
                                    assert(cache_exec_before.dom().contains(id));
                                    assert(self.waker_cache@[id] == cache_exec_before[id]);
                                }
                            }
                        }
                        let waker = self.waker_cache.get(&task_id).unwrap();
                        proof {
                            assert(self.waker_cache@[task_id] == *waker);
                            assert(waker.id() == task_id);
                        }
                        let ghost tasks_exec_before = self.tasks@;
                        let mut task = self.tasks.remove(&task_id).unwrap();
                        proof {
                            assert(self.tasks@ == tasks_exec_before.remove(task_id));
                            assert(tasks_exec_before[task_id] == task);
                            assert(pre_tasks[task_id] == task@);
                            assert(task@.id == task_id);
                            lemma_tasks_view_remove(tasks_exec_before, task_id);
                        }
                        let ghost step = spec_poll(pre_tasks[task_id].body, pre_bridge, task_id);
                        let result = task.poll(bridge, waker);
                        match result {
                            Poll::Ready => {
                                // the task is done: drop it and its handle
                                let ghost cache_exec_mid = self.waker_cache@;
                                self.waker_cache.remove(&task_id);
                                proof {
                                    assert(self.waker_cache@ == cache_exec_mid.remove(task_id));
                                    assert(self.tasks() =~= pre_tasks.remove(task_id));
                                    assert(self.wakers() =~= pre_wakers.insert(task_id).remove(
                                        task_id,
                                    ));
                                }
                            },
                            Poll::Pending => {
                                let ghost gtask = task;
                                let ghost tasks_exec_mid = self.tasks@;
                                self.tasks.insert(task_id, task);
                                proof {
                                    lemma_tasks_view_insert(tasks_exec_mid, task_id, gtask);
                                    assert(gtask@ == (TaskView { id: task_id, body: step.0 }));
                                    assert(self.tasks() =~= pre_tasks.insert(
                                        task_id,
                                        TaskView { id: task_id, body: step.0 },
                                    ));
                                }
                            },
                        }
                        proof {
                            // this iteration performed exactly one unfolding
                            // of the sweep model
                            assert(spec_sweep(pre_tasks, pre_wakers, pre_ready, pre_bridge)
                                == spec_sweep(self.tasks(), self.wakers(), ready@, bridge@));
                            assert forall|id: u64| self.tasks@.dom().contains(id) implies (
                            #[trigger] self.tasks@[id])@.id == id by {
                                if id != task_id {
                                    assert(self.tasks@[id] == tasks_exec_before[id]);
                                }
                            }
                        }
                    }
                },
            }
        }
    }
}

} // verus!
