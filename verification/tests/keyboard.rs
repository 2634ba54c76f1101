use kernel_core::executor::{Executor, ReadyQueue, TaskWaker};
use kernel_core::keyboard::{
    add_scancode, PollNext, ScancodeBridge, ScancodeStatus, ScancodeStream,
};
use kernel_core::task::{Task, TaskBody};

#[test]
fn uninitialized_queue_reports_bringup_bug() {
    let mut bridge = ScancodeBridge::new();
    let mut ready = ReadyQueue::new();
    assert!(!bridge.is_initialized());
    assert_eq!(add_scancode(&mut bridge, &mut ready, 7), ScancodeStatus::Uninitialized);
    assert!(ready.is_empty());
    assert_eq!(bridge.pending_events(), 0);
}

#[test]
fn overload_drops_newest_and_keeps_arrival_order() {
    // event queue of capacity 4: push 5 events with no consumer draining
    let mut bridge = ScancodeBridge::new();
    let stream = ScancodeStream::with_queue_capacity(&mut bridge, 4);
    let mut ready = ReadyQueue::new();
    let mut statuses = Vec::new();
    for code in [11u8, 22, 33, 44, 55] {
        statuses.push(add_scancode(&mut bridge, &mut ready, code));
    }
    // exactly one drop is reported, for the newest event
    assert_eq!(
        statuses,
        vec![
            ScancodeStatus::Enqueued,
            ScancodeStatus::Enqueued,
            ScancodeStatus::Enqueued,
            ScancodeStatus::Enqueued,
            ScancodeStatus::QueueFull,
        ]
    );
    // exactly 4 remain retrievable, in original arrival order
    assert_eq!(bridge.pending_events(), 4);
    let waker = TaskWaker::new(9);
    for expected in [11u8, 22, 33, 44] {
        assert_eq!(stream.poll_next(&mut bridge, &waker), PollNext::Ready(expected));
    }
    assert_eq!(stream.poll_next(&mut bridge, &waker), PollNext::Pending);
}

#[test]
fn fast_path_pops_without_registering() {
    let mut bridge = ScancodeBridge::new();
    let stream = ScancodeStream::with_queue_capacity(&mut bridge, 8);
    let mut ready = ReadyQueue::new();
    assert_eq!(add_scancode(&mut bridge, &mut ready, 200), ScancodeStatus::Enqueued);
    let waker = TaskWaker::new(6);
    // data is already there: returned at once
    assert_eq!(stream.poll_next(&mut bridge, &waker), PollNext::Ready(200));
    // empty again: the poll registers interest and suspends, so the next
    // delivery wakes task 6
    assert_eq!(stream.poll_next(&mut bridge, &waker), PollNext::Pending);
    assert_eq!(add_scancode(&mut bridge, &mut ready, 201), ScancodeStatus::Enqueued);
    assert!(!ready.is_empty());
}

#[test]
fn registered_consumer_sees_event_arriving_before_idle_check() {
    let mut exec = Executor::new();
    let mut ready = ReadyQueue::new();
    let mut bridge = ScancodeBridge::new();
    let stream = ScancodeStream::with_queue_capacity(&mut bridge, 8);
    exec.spawn(
        Task::new(3, TaskBody::EventConsumer { stream, received: Vec::new() }),
        &mut ready,
    );
    // first sweep: the queue is empty, the consumer registers and suspends
    exec.run_ready_tasks(&mut ready, &mut bridge);
    assert!(exec.contains_task(3));
    assert!(ready.is_empty());
    // an event arrives between the sweep and the idle check: the delivery
    // wakes the consumer, so the idle check must not halt past it
    assert_eq!(add_scancode(&mut bridge, &mut ready, 42), ScancodeStatus::Enqueued);
    assert!(!ready.is_empty());
    // the next sweep retrieves the event
    exec.run_ready_tasks(&mut ready, &mut bridge);
    assert_eq!(exec.received_events(3), Some(vec![42]));
    assert_eq!(bridge.pending_events(), 0);
}

#[test]
fn consumer_drains_all_pending_events_in_one_poll() {
    let mut exec = Executor::new();
    let mut ready = ReadyQueue::new();
    let mut bridge = ScancodeBridge::new();
    let stream = ScancodeStream::with_queue_capacity(&mut bridge, 8);
    exec.spawn(
        Task::new(5, TaskBody::EventConsumer { stream, received: Vec::new() }),
        &mut ready,
    );
    for code in [7u8, 8, 9] {
        assert_eq!(add_scancode(&mut bridge, &mut ready, code), ScancodeStatus::Enqueued);
    }
    exec.run_ready_tasks(&mut ready, &mut bridge);
    assert_eq!(exec.received_events(5), Some(vec![7, 8, 9]));
    // the consumer never completes: it stays dormant awaiting the next wake
    assert!(exec.contains_task(5));
    assert!(ready.is_empty());
}
