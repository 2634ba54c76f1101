use kernel_core::executor::{Executor, ReadyQueue, TaskWaker};
use kernel_core::keyboard::ScancodeBridge;
use kernel_core::task::{Task, TaskBody};

#[test]
fn completed_task_leaves_after_one_sweep() {
    let mut exec = Executor::new();
    let mut ready = ReadyQueue::new();
    let mut bridge = ScancodeBridge::new();
    bridge.init_with_capacity(16);
    // task A suspends once before finishing; task B finishes on first poll
    exec.spawn(Task::new(1, TaskBody::Countdown { polls_left: 1 }), &mut ready);
    exec.spawn(Task::new(2, TaskBody::Countdown { polls_left: 0 }), &mut ready);
    exec.run_ready_tasks(&mut ready, &mut bridge);
    // B is gone, together with its cached wake handle; A stays dormant
    assert!(!exec.contains_task(2));
    assert!(!exec.has_cached_waker(2));
    assert!(exec.contains_task(1));
    assert!(exec.has_cached_waker(1));
    assert!(ready.is_empty());
    // A's wake handle fires; the next sweep polls it to completion
    TaskWaker::new(1).wake(&mut ready);
    exec.run_ready_tasks(&mut ready, &mut bridge);
    assert!(!exec.contains_task(1));
    assert!(!exec.has_cached_waker(1));
}

#[test]
fn wake_after_complete_is_benign() {
    let mut exec = Executor::new();
    let mut ready = ReadyQueue::new();
    let mut bridge = ScancodeBridge::new();
    bridge.init_with_capacity(16);
    exec.spawn(Task::new(7, TaskBody::Countdown { polls_left: 0 }), &mut ready);
    exec.run_ready_tasks(&mut ready, &mut bridge);
    assert!(!exec.contains_task(7));
    // the task's wake handle fires after its task completed
    TaskWaker::new(7).wake(&mut ready);
    assert!(!ready.is_empty());
    // the stale id is skipped silently; nothing is resurrected
    exec.run_ready_tasks(&mut ready, &mut bridge);
    assert!(ready.is_empty());
    assert!(!exec.contains_task(7));
    assert!(!exec.has_cached_waker(7));
    // and the executor still runs fresh tasks afterwards
    exec.spawn(Task::new(8, TaskBody::Countdown { polls_left: 0 }), &mut ready);
    exec.run_ready_tasks(&mut ready, &mut bridge);
    assert!(!exec.contains_task(8));
}

#[test]
fn duplicate_wakeups_poll_at_least_once() {
    let mut exec = Executor::new();
    let mut ready = ReadyQueue::new();
    let mut bridge = ScancodeBridge::new();
    bridge.init_with_capacity(16);
    exec.spawn(Task::new(4, TaskBody::Countdown { polls_left: 1 }), &mut ready);
    // two wake handles race in before the sweep: the id is queued twice
    TaskWaker::new(4).wake(&mut ready);
    // the sweep polls the task (to Pending), then completes it on the
    // duplicate entry in the same sweep
    exec.run_ready_tasks(&mut ready, &mut bridge);
    assert!(!exec.contains_task(4));
    assert!(ready.is_empty());
}

#[test]
fn idle_gate_halts_only_without_ready_work() {
    let mut exec = Executor::new();
    let mut ready = ReadyQueue::new();
    let mut bridge = ScancodeBridge::new();
    bridge.init_with_capacity(16);
    assert!(ready.is_empty());
    exec.spawn(Task::new(9, TaskBody::Countdown { polls_left: 0 }), &mut ready);
    // a wake raced in: the idle check must not halt
    assert!(!ready.is_empty());
    exec.run_ready_tasks(&mut ready, &mut bridge);
    assert!(ready.is_empty());
}
