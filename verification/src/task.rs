use vstd::prelude::*;

use crate::event_loop::{wakeup_of, EventLoop};

verus! {

/// Identifier of a spawned task, handed out in spawn order.
pub type TaskId = usize;

/// What polling a task once reported.
#[derive(Clone, Copy, Debug, PartialEq, Eq, Structural)]
pub enum PollState {
    /// The task ran to completion.
    Ready,
    /// The task is waiting to be woken.
    Pending,
}

/// The waker that the executor hands to a task: it names the task to run again.
#[derive(Clone, Copy, Debug, PartialEq, Eq, Structural)]
pub struct CustomWaker {
    pub task_id: TaskId,
}

/// A request to poll the task `task_id` again, with the waker to poll it with.
#[derive(Clone, Copy, Debug, PartialEq, Eq, Structural)]
pub struct Wakeup {
    pub task_id: TaskId,
    pub waker: CustomWaker,
}

impl CustomWaker {
    /// The waker of task `task_id`.
    pub fn new(task_id: TaskId) -> (w: CustomWaker)
        ensures
            w.task_id == task_id,
    {
        CustomWaker { task_id }
    }

    /// Puts the task of this waker at the back of the run queue.
    pub fn wake<T>(self, reactor: &mut EventLoop<T>)
        ensures
            final(reactor)@ == old(reactor)@.woken(wakeup_of(self)),
            final(reactor)@.wf(),
    {
        reactor.wake(Wakeup { task_id: self.task_id, waker: CustomWaker::new(self.task_id) });
    }

    /// Puts the task of this waker at the back of the run queue; the waker stays usable.
    pub fn wake_by_ref<T>(&self, reactor: &mut EventLoop<T>)
        ensures
            final(reactor)@ == old(reactor)@.woken(wakeup_of(*self)),
            final(reactor)@.wf(),
    {
        let w = *self;
        w.wake(reactor);
    }
}

} // verus!
