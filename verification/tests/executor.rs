use mini_runtime::{
    run, spawn, CustomWaker, EventLoop, LoopAction, LoopEvent, PollState, Readiness, Wakeup,
};

fn wakeup(id: usize) -> Wakeup {
    Wakeup { task_id: id, waker: CustomWaker { task_id: id } }
}

#[test]
fn spawn_numbers_tasks_and_hands_them_out_at_once() {
    let mut r: EventLoop<&str> = EventLoop::new();
    assert_eq!(spawn(&mut r, "first"), (wakeup(0), "first"));
    assert_eq!(spawn(&mut r, "second"), (wakeup(1), "second"));
    assert_eq!(r.task_count(), 2);
    assert!(!r.is_waiting(0));
    assert!(!r.is_waiting(1));
}

#[test]
fn spawned_task_pending_after_first_poll_waits() {
    let mut r: EventLoop<&str> = EventLoop::new();
    let (w, task) = spawn(&mut r, "t");
    r.settle(w.task_id, task, PollState::Pending);
    assert!(r.is_waiting(0));
    assert_eq!(run(&mut r, LoopEvent::Ready(vec![])), LoopAction::Wait);
    assert!(r.is_waiting(0));
}

#[test]
fn run_polls_task_woken_by_readiness_until_it_finishes() {
    let mut r: EventLoop<&str> = EventLoop::new();
    let (w, task) = spawn(&mut r, "reader");
    r.settle(w.task_id, task, PollState::Pending);
    r.register_entry(11, CustomWaker::new(0));
    let ready = vec![Readiness { token: 11, readable: true, writable: false }];
    let action = run(&mut r, LoopEvent::Ready(ready));
    assert_eq!(action, LoopAction::Poll(wakeup(0), "reader"));
    assert!(!r.is_waiting(0));
    // The task is still pending: it waits again and nothing else is due.
    let action = run(&mut r, LoopEvent::Polled(wakeup(0), "reader", PollState::Pending));
    assert_eq!(action, LoopAction::Wait);
    assert!(r.is_waiting(0));
    // Readiness again, and this time the task finishes.
    let ready = vec![Readiness { token: 11, readable: true, writable: false }];
    assert_eq!(run(&mut r, LoopEvent::Ready(ready)), LoopAction::Poll(wakeup(0), "reader"));
    assert_eq!(run(&mut r, LoopEvent::Polled(wakeup(0), "reader", PollState::Ready)), LoopAction::Wait);
    assert!(!r.is_waiting(0));
}

#[test]
fn run_drains_due_wakeups_in_order() {
    let mut r: EventLoop<u8> = EventLoop::new();
    for n in 0..3u8 {
        let (w, task) = spawn(&mut r, n);
        r.settle(w.task_id, task, PollState::Pending);
    }
    r.register_entry(1, CustomWaker::new(2));
    r.register_entry(2, CustomWaker::new(0));
    let ready = vec![
        Readiness { token: 1, readable: false, writable: true },
        Readiness { token: 9, readable: true, writable: true },
        Readiness { token: 2, readable: true, writable: false },
    ];
    assert_eq!(run(&mut r, LoopEvent::Ready(ready)), LoopAction::Poll(wakeup(2), 2));
    // While task 2 was polled it woke task 1.
    CustomWaker::new(1).wake(&mut r);
    assert_eq!(run(&mut r, LoopEvent::Polled(wakeup(2), 2, PollState::Ready)), LoopAction::Poll(wakeup(0), 0));
    assert_eq!(run(&mut r, LoopEvent::Polled(wakeup(0), 0, PollState::Pending)), LoopAction::Poll(wakeup(1), 1));
    assert_eq!(run(&mut r, LoopEvent::Polled(wakeup(1), 1, PollState::Ready)), LoopAction::Wait);
    assert!(r.is_waiting(0));
    assert!(!r.is_waiting(1));
    assert!(!r.is_waiting(2));
}

#[test]
fn finished_task_is_not_polled_again() {
    let mut r: EventLoop<&str> = EventLoop::new();
    let (w, task) = spawn(&mut r, "once");
    r.settle(w.task_id, task, PollState::Pending);
    CustomWaker::new(0).wake(&mut r);
    CustomWaker::new(0).wake(&mut r);
    assert_eq!(run(&mut r, LoopEvent::Ready(vec![])), LoopAction::Poll(wakeup(0), "once"));
    assert_eq!(r.due_wakeups(), 1);
    assert_eq!(run(&mut r, LoopEvent::Polled(wakeup(0), "once", PollState::Ready)), LoopAction::Wait);
    assert_eq!(r.due_wakeups(), 0);
    assert!(!r.is_waiting(0));
}

#[test]
fn handed_out_task_counts_as_polling_until_filed() {
    let mut r: EventLoop<&str> = EventLoop::new();
    let (w, task) = spawn(&mut r, "t");
    assert!(r.is_polling(w.task_id));
    r.settle(w.task_id, task, PollState::Pending);
    assert!(!r.is_polling(0));
    CustomWaker::new(0).wake(&mut r);
    assert_eq!(run(&mut r, LoopEvent::Ready(vec![])), LoopAction::Poll(wakeup(0), "t"));
    assert!(r.is_polling(0));
    assert!(!r.is_waiting(0));
    assert_eq!(run(&mut r, LoopEvent::Polled(wakeup(0), "t", PollState::Ready)), LoopAction::Wait);
    assert!(!r.is_polling(0));
}

#[test]
fn registered_task_is_polled_in_the_round_of_its_readiness() {
    let mut r: EventLoop<&str> = EventLoop::new();
    let (g, task) = spawn(&mut r, "g");
    r.settle(g.task_id, task, PollState::Pending);
    r.register_entry(5, CustomWaker::new(g.task_id));
    let (f, task) = spawn(&mut r, "f");
    assert_eq!(f.task_id, 1);
    r.settle(f.task_id, task, PollState::Pending);
    CustomWaker::new(1).wake(&mut r);
    let ready = vec![Readiness { token: 5, readable: false, writable: true }];
    assert_eq!(run(&mut r, LoopEvent::Ready(ready)), LoopAction::Poll(wakeup(1), "f"));
    assert_eq!(
        run(&mut r, LoopEvent::Polled(wakeup(1), "f", PollState::Pending)),
        LoopAction::Poll(wakeup(0), "g")
    );
}
