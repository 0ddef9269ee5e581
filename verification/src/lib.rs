//! A single-threaded task executor driven by readiness events.
//!
//! The reactor keeps the tasks that wait to be polled, the queue of wakeups
//! that are due, and the readiness interests registered per I/O token. Every
//! decision the executor takes is a verified transition of that state.

mod event_loop;
mod executor;
mod laws;
mod response;
mod task;

pub use event_loop::{
    wakeup_of, wakeups_for, wakeups_of, Entry, EventLoop, IoAttempt, IoPoll, Readiness, ReactorView,
};
pub use task::{CustomWaker, PollState, TaskId, Wakeup};
pub use executor::{absorbed, action_of, run, spawn, LoopAction, LoopEvent};
pub use laws::{
    lemma_dispatch_only_queues_wakeups, lemma_next_task_takes_first_waiting,
    lemma_poll_report_is_filed_then_served, lemma_register_sets_only_its_token,
    lemma_settle_files_only_its_task, lemma_spawn_leaves_queue_and_interests,
    lemma_wake_queues_at_the_back, wakes_registered,
    first_wakeup_of, lemma_first_wakeup_is_found, lemma_first_wakeup_kept_by_appending,
    lemma_task_position_kept_between_steps,
    lemma_dispatched_keeps_wf, lemma_due_task_is_polled_before_wait,
    lemma_finished_task_is_not_polled_again, lemma_finished_task_stays_finished,
    lemma_last_registration_wins, lemma_numbered_keeps_wf, lemma_only_waiting_tasks_are_handed_out,
    lemma_pending_task_waits_again, lemma_readiness_makes_registered_task_due,
    lemma_readiness_wakes_registered_task, lemma_ready_task_is_finished,
    lemma_registered_keeps_wf, lemma_report_keeps_task_due, lemma_run_step_keeps_invariant,
    lemma_run_step_reaches_due_task, lemma_settled_keeps_wf, lemma_spawn_keeps_waiting_tasks,
    lemma_unregistered_readiness_is_ignored, lemma_wakeups_are_served_in_order,
    lemma_wakeups_for_are_consistent, lemma_woken_keeps_wf,
};
pub use response::collect_read;
