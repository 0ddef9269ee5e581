use vstd::prelude::*;

use crate::event_loop::{wakeup_of, EventLoop, Readiness, ReactorView};
use crate::laws::lemma_only_waiting_tasks_are_handed_out;
use crate::task::{CustomWaker, PollState, TaskId, Wakeup};

verus! {

/// What the run loop learned since its last step.
pub enum LoopEvent<T> {
    /// The poller reported readiness for these tokens.
    Ready(Vec<Readiness>),
    /// The task handed out by the last step was polled with the wakeup's waker.
    Polled(Wakeup, T, PollState),
}

/// What the run loop is to do next.
#[derive(Debug, PartialEq, Eq)]
pub enum LoopAction<T> {
    /// Poll the task with the waker of the wakeup, then report `LoopEvent::Polled`.
    Poll(Wakeup, T),
    /// Nothing is due: wait for readiness, then report `LoopEvent::Ready`.
    Wait,
}

/// The reactor state once `event` has been taken in, before the next task is chosen.
pub open spec fn absorbed<T>(v: ReactorView<T>, event: LoopEvent<T>) -> ReactorView<T> {
    match event {
        LoopEvent::Ready(events) => v.dispatched(events@),
        LoopEvent::Polled(w, task, outcome) => v.settled(w.task_id, task, outcome),
    }
}

/// The action that a choice of next task asks for.
pub open spec fn action_of<T>(next: Option<(Wakeup, T)>) -> LoopAction<T> {
    match next {
        Some((w, task)) => LoopAction::Poll(w, task),
        None => LoopAction::Wait,
    }
}

/// One step of the run loop: takes in what happened (readiness is dispatched
/// to the registered wakers; a polled task is filed: kept while pending,
/// dropped once finished), then hands out the next waiting task whose wakeup
/// is due, skipping stale wakeups, or asks to wait for readiness when none is due.
pub fn run<T>(reactor: &mut EventLoop<T>, event: LoopEvent<T>) -> (action: LoopAction<T>)
    requires
        event is Polled ==> old(reactor)@.polling.contains(event->Polled_0.task_id),
    ensures
        final(reactor)@.wf(),
        final(reactor)@ == absorbed(old(reactor)@, event).next_task().0,
        action == action_of(absorbed(old(reactor)@, event).next_task().1),
        match action {
            LoopAction::Poll(w, _) => final(reactor)@.polling.contains(w.task_id),
            LoopAction::Wait => final(reactor)@.run_queue.len() == 0,
        },
        final(reactor)@.entries == old(reactor)@.entries,
        final(reactor)@.task_counter == old(reactor)@.task_counter,
{
    proof {
        lemma_only_waiting_tasks_are_handed_out(absorbed(old(reactor)@, event));
    }
    match event {
        LoopEvent::Ready(events) => reactor.dispatch(&events),
        LoopEvent::Polled(w, task, outcome) => reactor.settle(w.task_id, task, outcome),
    }
    match reactor.next_task() {
        Some((w, task)) => LoopAction::Poll(w, task),
        None => LoopAction::Wait,
    }
}

/// Spawns `task`: it gets the next task id and is handed back at once, with
/// the wakeup of that id, to be polled a first time; the outcome of that poll
/// is filed with `EventLoop::settle`.
pub fn spawn<T>(reactor: &mut EventLoop<T>, task: T) -> (r: (Wakeup, T))
    requires
        old(reactor)@.task_counter < usize::MAX,
    ensures
        final(reactor)@.wf(),
        final(reactor)@ == old(reactor)@.numbered(),
        r.0 == wakeup_of(CustomWaker { task_id: old(reactor)@.task_counter as TaskId }),
        r.1 == task,
        !old(reactor)@.waiting.contains_key(r.0.task_id),
        !old(reactor)@.polling.contains(r.0.task_id),
        final(reactor)@.polling.contains(r.0.task_id),
{
    let id = reactor.next_task_id();
    (Wakeup { task_id: id, waker: CustomWaker::new(id) }, task)
}

} // verus!
