use mini_runtime::{CustomWaker, EventLoop, IoAttempt, IoPoll, PollState, Readiness, Wakeup};

fn wakeup(id: usize) -> Wakeup {
    Wakeup { task_id: id, waker: CustomWaker { task_id: id } }
}

#[test]
fn new_reactor_is_empty() {
    let r: EventLoop<&str> = EventLoop::new();
    assert_eq!(r.task_count(), 0);
    assert_eq!(r.due_wakeups(), 0);
    assert!(!r.is_waiting(0));
}

#[test]
fn task_ids_follow_spawn_order() {
    let mut r: EventLoop<&str> = EventLoop::new();
    assert_eq!(r.next_task_id(), 0);
    assert_eq!(r.next_task_id(), 1);
    assert_eq!(r.next_task_id(), 2);
    assert_eq!(r.task_count(), 3);
}

#[test]
fn pending_task_waits_and_finished_task_is_dropped() {
    let mut r: EventLoop<&str> = EventLoop::new();
    let a = r.next_task_id();
    r.settle(a, "a", PollState::Pending);
    let b = r.next_task_id();
    r.settle(b, "b", PollState::Ready);
    assert!(r.is_waiting(a));
    assert!(!r.is_waiting(b));
}

#[test]
fn woken_task_is_handed_out_once() {
    let mut r: EventLoop<&str> = EventLoop::new();
    let a = r.next_task_id();
    r.settle(a, "a", PollState::Pending);
    CustomWaker::new(a).wake(&mut r);
    assert_eq!(r.due_wakeups(), 1);
    assert_eq!(r.next_task(), Some((wakeup(a), "a")));
    assert!(!r.is_waiting(a));
    assert_eq!(r.next_task(), None);
}

#[test]
fn stale_wakeups_are_skipped() {
    let mut r: EventLoop<&str> = EventLoop::new();
    let a = r.next_task_id();
    let b = r.next_task_id();
    r.settle(a, "a", PollState::Ready);
    r.settle(b, "b", PollState::Pending);
    r.wake(wakeup(a));
    r.wake(wakeup(7));
    r.wake(wakeup(b));
    assert_eq!(r.next_task(), Some((wakeup(b), "b")));
    assert_eq!(r.due_wakeups(), 0);
    assert_eq!(r.next_task(), None);
}

#[test]
fn wakeups_are_served_in_order() {
    let mut r: EventLoop<u32> = EventLoop::new();
    for i in 0..3u32 {
        let id = r.next_task_id();
        r.settle(id, i * 10, PollState::Pending);
    }
    CustomWaker::new(2).wake_by_ref(&mut r);
    CustomWaker::new(0).wake(&mut r);
    CustomWaker::new(1).wake(&mut r);
    assert_eq!(r.next_task(), Some((wakeup(2), 20)));
    assert_eq!(r.next_task(), Some((wakeup(0), 0)));
    assert_eq!(r.next_task(), Some((wakeup(1), 10)));
    assert_eq!(r.next_task(), None);
}

#[test]
fn readiness_wakes_registered_reader_and_writer() {
    let mut r: EventLoop<&str> = EventLoop::new();
    let a = r.next_task_id();
    r.settle(a, "a", PollState::Pending);
    r.register_entry(7, CustomWaker::new(a));
    let events = vec![Readiness { token: 7, readable: true, writable: true }];
    r.dispatch(&events);
    assert_eq!(r.due_wakeups(), 2);
    assert_eq!(r.next_task(), Some((wakeup(a), "a")));
    // The second wakeup names a task that is no longer waiting.
    assert_eq!(r.next_task(), None);
    assert_eq!(r.due_wakeups(), 0);
}

#[test]
fn readiness_of_unknown_token_wakes_nothing() {
    let mut r: EventLoop<&str> = EventLoop::new();
    let a = r.next_task_id();
    r.settle(a, "a", PollState::Pending);
    r.register_entry(3, CustomWaker::new(a));
    r.dispatch(&vec![
        Readiness { token: 4, readable: true, writable: true },
        Readiness { token: 3, readable: false, writable: false },
    ]);
    assert_eq!(r.due_wakeups(), 0);
    assert!(r.is_waiting(a));
}

#[test]
fn readable_only_wakes_reader_once() {
    let mut r: EventLoop<&str> = EventLoop::new();
    r.register_entry(5, CustomWaker::new(9));
    r.dispatch(&vec![Readiness { token: 5, readable: true, writable: false }]);
    assert_eq!(r.due_wakeups(), 1);
    r.dispatch(&vec![Readiness { token: 5, readable: false, writable: true }]);
    assert_eq!(r.due_wakeups(), 2);
}

#[test]
fn last_registration_wins() {
    let mut r: EventLoop<&str> = EventLoop::new();
    let a = r.next_task_id();
    let b = r.next_task_id();
    r.settle(a, "a", PollState::Pending);
    r.settle(b, "b", PollState::Pending);
    r.register_entry(1, CustomWaker::new(a));
    r.register_entry(1, CustomWaker::new(b));
    r.dispatch(&vec![Readiness { token: 1, readable: true, writable: false }]);
    assert_eq!(r.next_task(), Some((wakeup(b), "b")));
    assert_eq!(r.next_task(), None);
    assert!(r.is_waiting(a));
}

#[test]
fn finished_io_is_ready_without_registration() {
    let mut r: EventLoop<&str> = EventLoop::new();
    let out = r.poll_io(4, CustomWaker::new(0), IoAttempt::Finished(128usize));
    assert_eq!(out, IoPoll::Ready(128));
    r.dispatch(&vec![Readiness { token: 4, readable: true, writable: true }]);
    assert_eq!(r.due_wakeups(), 0);
}

#[test]
fn blocked_io_is_pending_until_readiness() {
    let mut r: EventLoop<&str> = EventLoop::new();
    let a = r.next_task_id();
    r.settle(a, "reader", PollState::Pending);
    let out: IoPoll<usize> = r.poll_io(4, CustomWaker::new(a), IoAttempt::WouldBlock);
    assert_eq!(out, IoPoll::Pending);
    assert_eq!(r.next_task(), None);
    r.dispatch(&vec![Readiness { token: 4, readable: true, writable: false }]);
    assert_eq!(r.next_task(), Some((wakeup(a), "reader")));
}

#[test]
fn polled_pending_task_waits_again() {
    let mut r: EventLoop<&str> = EventLoop::new();
    let a = r.next_task_id();
    r.settle(a, "a", PollState::Pending);
    CustomWaker::new(a).wake(&mut r);
    let (w, task) = r.next_task().unwrap();
    r.settle(w.task_id, task, PollState::Pending);
    assert!(r.is_waiting(a));
    CustomWaker::new(a).wake(&mut r);
    let (w, task) = r.next_task().unwrap();
    r.settle(w.task_id, task, PollState::Ready);
    assert!(!r.is_waiting(a));
}

#[test]
fn waker_names_its_task() {
    let w = CustomWaker::new(42);
    assert_eq!(w.task_id, 42);
    let mut r: EventLoop<()> = EventLoop::new();
    w.wake_by_ref(&mut r);
    w.wake(&mut r);
    assert_eq!(r.due_wakeups(), 2);
}
