use vstd::prelude::*;

use crate::event_loop::{wakeup_of, wakeups_for, wakeups_of, Entry, Readiness, ReactorView};
use crate::executor::{absorbed, LoopEvent};
use crate::task::{CustomWaker, PollState, TaskId, Wakeup};

verus! {

/// Queuing a wakeup that carries the waker of the task it names keeps a
/// reactor well formed.
pub proof fn lemma_woken_keeps_wf<T>(v: ReactorView<T>, wakeup: Wakeup)
    requires
        v.wf(),
        wakeup == wakeup_of(wakeup.waker),
    ensures
        v.woken(wakeup).wf(),
{
    let a = v.woken(wakeup);
    assert forall|i: int| 0 <= i < a.run_queue.len() implies #[trigger] a.run_queue[i] == wakeup_of(
        a.run_queue[i].waker,
    ) by {
        if i < v.run_queue.len() {
            assert(a.run_queue[i] == v.run_queue[i]);
        }
    }
}

/// Registering a waker for a token keeps a reactor well formed.
pub proof fn lemma_registered_keeps_wf<T>(v: ReactorView<T>, token: usize, waker: CustomWaker)
    requires
        v.wf(),
    ensures
        v.registered(token, waker).wf(),
{
    let a = v.registered(token, waker);
    assert forall|t: usize| #[trigger] a.entries.contains_key(t) implies a.entries[t].token == t by {
        if t != token {
            assert(v.entries.contains_key(t));
        }
    }
}

/// Handing out the next task id keeps a reactor well formed; the new id
/// named no task before.
pub proof fn lemma_numbered_keeps_wf<T>(v: ReactorView<T>)
    requires
        v.wf(),
        v.task_counter < usize::MAX,
    ensures
        v.numbered().wf(),
        !v.waiting.contains_key(v.task_counter as TaskId),
        !v.polling.contains(v.task_counter as TaskId),
        v.numbered().polling.contains(v.task_counter as TaskId),
{
    let id = v.task_counter as TaskId;
    let a = v.numbered();
    assert(id == v.task_counter);
    assert forall|k: TaskId| #[trigger] a.polling.contains(k) implies k < a.task_counter by {
        if k != id {
            assert(v.polling.contains(k));
        }
    }
}

/// Filing a task that was being polled keeps a reactor well formed.
pub proof fn lemma_settled_keeps_wf<T>(v: ReactorView<T>, id: TaskId, task: T, outcome: PollState)
    requires
        v.wf(),
        v.polling.contains(id),
    ensures
        v.settled(id, task, outcome).wf(),
{
    let a = v.settled(id, task, outcome);
    assert forall|k: TaskId| #[trigger] a.waiting.contains_key(k) implies k < a.task_counter
        && !a.polling.contains(k) by {
        if k != id {
            assert(v.waiting.contains_key(k));
        }
    }
}

/// Spawning a task (numbering it, then filing it after its first poll) keeps
/// the reactor well formed, gives the next id, and leaves every task that was
/// already waiting where it was.
pub proof fn lemma_spawn_keeps_waiting_tasks<T>(v: ReactorView<T>, task: T, first_poll: PollState)
    requires
        v.wf(),
        v.task_counter < usize::MAX,
    ensures
        ({
            let id = v.task_counter as TaskId;
            let after = v.numbered().settled(id, task, first_poll);
            &&& !v.waiting.contains_key(id)
            &&& after.wf()
            &&& after.task_counter == v.task_counter + 1
            &&& forall|k: TaskId| #[trigger]
                v.waiting.contains_key(k) ==> after.waiting.contains_key(k) && after.waiting[k]
                    == v.waiting[k]
            &&& (first_poll == PollState::Pending <==> after.waiting.contains_key(id))
        }),
{
}

/// Only a waiting task is ever handed out to be polled, together with the
/// wakeup that named it; it moves from the waiting set to the tasks being
/// polled, and nothing else moves. When nothing is handed out, every due
/// wakeup was stale and the queue is empty. Taking the next task keeps a
/// reactor well formed.
pub proof fn lemma_only_waiting_tasks_are_handed_out<T>(v: ReactorView<T>)
    ensures
        ({
            let (after, r) = v.next_task();
            &&& after.entries == v.entries
            &&& after.task_counter == v.task_counter
            &&& (v.wf() ==> after.wf())
            &&& match r {
                Some((w, t)) => {
                    &&& v.waiting.contains_key(w.task_id)
                    &&& t == v.waiting[w.task_id]
                    &&& after.waiting == v.waiting.remove(w.task_id)
                    &&& after.polling == v.polling.insert(w.task_id)
                },
                None => {
                    &&& after.waiting == v.waiting
                    &&& after.polling == v.polling
                    &&& after.run_queue.len() == 0
                },
            }
        }),
    decreases v.run_queue.len(),
{
    if v.run_queue.len() > 0 {
        let rest = ReactorView { run_queue: v.run_queue.drop_first(), ..v };
        if v.wf() {
            assert forall|i: int| 0 <= i < rest.run_queue.len() implies #[trigger] rest.run_queue[i]
                == wakeup_of(rest.run_queue[i].waker) by {
                assert(rest.run_queue[i] == v.run_queue[i + 1]);
            }
            assert(rest.wf());
        }
        let w = v.run_queue[0];
        if !v.waiting.contains_key(w.task_id) {
            lemma_only_waiting_tasks_are_handed_out(rest);
        } else if v.wf() {
            let (after, r) = v.next_task();
            assert forall|k: TaskId| #[trigger] after.waiting.contains_key(k) implies k
                < after.task_counter && !after.polling.contains(k) by {
                assert(v.waiting.contains_key(k));
            }
            assert forall|k: TaskId| #[trigger] after.polling.contains(k) implies k
                < after.task_counter by {
                if k != w.task_id {
                    assert(v.polling.contains(k));
                }
            }
        }
    }
}

/// The wakeups that readiness queues carry the wakers of the tasks they name.
pub proof fn lemma_wakeups_for_are_consistent(entries: Map<usize, Entry>, events: Seq<Readiness>)
    ensures
        forall|i: int|
            0 <= i < wakeups_for(entries, events).len() ==> #[trigger] wakeups_for(
                entries,
                events,
            )[i] == wakeup_of(wakeups_for(entries, events)[i].waker),
    decreases events.len(),
{
    if events.len() > 0 {
        lemma_wakeups_for_are_consistent(entries, events.drop_last());
        let pre = wakeups_for(entries, events.drop_last());
        let last = wakeups_of(entries, events.last());
        assert forall|i: int| 0 <= i < wakeups_for(entries, events).len() implies #[trigger] wakeups_for(
            entries,
            events,
        )[i] == wakeup_of(wakeups_for(entries, events)[i].waker) by {
            if i < pre.len() {
                assert(wakeups_for(entries, events)[i] == pre[i]);
            } else {
                assert(wakeups_for(entries, events)[i] == last[i - pre.len()]);
            }
        }
    }
}

/// Dispatching readiness keeps a reactor well formed.
pub proof fn lemma_dispatched_keeps_wf<T>(v: ReactorView<T>, events: Seq<Readiness>)
    requires
        v.wf(),
    ensures
        v.dispatched(events).wf(),
{
    lemma_wakeups_for_are_consistent(v.entries, events);
    let a = v.dispatched(events);
    let extra = wakeups_for(v.entries, events);
    assert forall|i: int| 0 <= i < a.run_queue.len() implies #[trigger] a.run_queue[i] == wakeup_of(
        a.run_queue[i].waker,
    ) by {
        if i < v.run_queue.len() {
            assert(a.run_queue[i] == v.run_queue[i]);
        } else {
            assert(a.run_queue[i] == extra[i - v.run_queue.len()]);
        }
    }
}

/// Wakeups are served in the order they were queued: with nothing else due,
/// waking two waiting tasks hands out the first, then the second, and then
/// nothing is due.
pub proof fn lemma_wakeups_are_served_in_order<T>(v: ReactorView<T>, a: Wakeup, b: Wakeup)
    requires
        v.run_queue.len() == 0,
        v.waiting.contains_key(a.task_id),
        v.waiting.contains_key(b.task_id),
        a.task_id != b.task_id,
    ensures
        ({
            let (s1, r1) = v.woken(a).woken(b).next_task();
            let (s2, r2) = s1.next_task();
            &&& r1 == Some((a, v.waiting[a.task_id]))
            &&& r2 == Some((b, v.waiting[b.task_id]))
            &&& s2.run_queue.len() == 0
            &&& s2.waiting == v.waiting.remove(a.task_id).remove(b.task_id)
        }),
{
    let s = v.woken(a).woken(b);
    assert(s.run_queue == seq![a, b]);
    let (s1, r1) = s.next_task();
    assert(s1.run_queue == seq![b]);
}

/// Readiness of a token wakes the waker registered for it last: its reader
/// for readability, then its writer for writability, behind the wakeups
/// already due.
pub proof fn lemma_readiness_wakes_registered_task<T>(
    v: ReactorView<T>,
    token: usize,
    waker: CustomWaker,
    readable: bool,
    writable: bool,
)
    ensures
        v.registered(token, waker).dispatched(
            seq![Readiness { token, readable, writable }],
        ).run_queue == v.run_queue + (if readable {
            seq![wakeup_of(waker)]
        } else {
            Seq::empty()
        }) + (if writable {
            seq![wakeup_of(waker)]
        } else {
            Seq::empty()
        }),
{
    let r = v.registered(token, waker);
    let evs = seq![Readiness { token, readable, writable }];
    assert(evs.drop_last() == Seq::<Readiness>::empty());
    assert(wakeups_for(r.entries, Seq::<Readiness>::empty()) == Seq::<Wakeup>::empty());
    assert(v.run_queue + (if readable {
        seq![wakeup_of(waker)]
    } else {
        Seq::empty()
    }) + (if writable {
        seq![wakeup_of(waker)]
    } else {
        Seq::empty()
    }) == v.run_queue + ((if readable {
        seq![wakeup_of(waker)]
    } else {
        Seq::empty()
    }) + (if writable {
        seq![wakeup_of(waker)]
    } else {
        Seq::empty()
    })));
}

/// Readiness of a token that nobody registered wakes nothing.
pub proof fn lemma_unregistered_readiness_is_ignored<T>(v: ReactorView<T>, ev: Readiness)
    requires
        !v.entries.contains_key(ev.token),
    ensures
        v.dispatched(seq![ev]) == v,
{
    let evs = seq![ev];
    assert(evs.drop_last() == Seq::<Readiness>::empty());
    assert(evs.last() == ev);
    assert(wakeups_for(v.entries, Seq::<Readiness>::empty()) == Seq::<Wakeup>::empty());
    assert(wakeups_for(v.entries, evs) == Seq::<Wakeup>::empty());
    assert(v.dispatched(evs).run_queue == v.run_queue);
}

/// Registering a token again replaces the earlier registration.
pub proof fn lemma_last_registration_wins<T>(
    v: ReactorView<T>,
    token: usize,
    first: CustomWaker,
    second: CustomWaker,
)
    ensures
        v.registered(token, first).registered(token, second) == v.registered(token, second),
{
    assert(v.registered(token, first).registered(token, second).entries == v.registered(
        token,
        second,
    ).entries);
}

/// A task handed out to be polled and filed back as pending waits again
/// exactly as before: the waiting set is restored.
pub proof fn lemma_pending_task_waits_again<T>(v: ReactorView<T>)
    ensures
        ({
            let (after, r) = v.next_task();
            match r {
                Some((w, t)) => after.settled(w.task_id, t, PollState::Pending).waiting
                    == v.waiting,
                None => true,
            }
        }),
{
    lemma_only_waiting_tasks_are_handed_out(v);
    let (after, r) = v.next_task();
    match r {
        Some((w, t)) => {
            assert(after.settled(w.task_id, t, PollState::Pending).waiting == v.waiting);
        },
        None => {},
    }
}

/// The run loop keeps its invariant over every step: from a well formed
/// reactor, a step on a report that keeps to the protocol (readiness, or the
/// poll of a task that was handed out and not yet filed) leaves the reactor
/// well formed; a task that the step hands out counts as being polled, so
/// that the report of its poll keeps to the protocol in turn; and the step
/// asks to wait only when no wakeup is due. Spawning keeps the invariant too
/// (`lemma_numbered_keeps_wf`), so it holds of every reachable state.
pub proof fn lemma_run_step_keeps_invariant<T>(v: ReactorView<T>, event: LoopEvent<T>)
    requires
        v.wf(),
        event is Polled ==> v.polling.contains(event->Polled_0.task_id),
    ensures
        ({
            let (after, next) = absorbed(v, event).next_task();
            &&& after.wf()
            &&& match next {
                Some((w, _)) => after.polling.contains(w.task_id),
                None => after.run_queue.len() == 0,
            }
        }),
{
    match event {
        LoopEvent::Ready(events) => lemma_dispatched_keeps_wf(v, events@),
        LoopEvent::Polled(w, task, outcome) => lemma_settled_keeps_wf(v, w.task_id, task, outcome),
    }
    lemma_only_waiting_tasks_are_handed_out(absorbed(v, event));
}

/// Filing a task as finished makes it finished.
pub proof fn lemma_ready_task_is_finished<T>(v: ReactorView<T>, id: TaskId, task: T)
    requires
        v.wf(),
        v.polling.contains(id),
    ensures
        v.settled(id, task, PollState::Ready).finished(id),
{
}

/// A finished task stays finished under spawning, waking and registering.
pub proof fn lemma_finished_task_stays_finished<T>(
    v: ReactorView<T>,
    k: TaskId,
    wakeup: Wakeup,
    token: usize,
    waker: CustomWaker,
)
    requires
        v.wf(),
        v.finished(k),
    ensures
        v.woken(wakeup).finished(k),
        v.registered(token, waker).finished(k),
        v.task_counter < usize::MAX ==> v.numbered().finished(k),
{
    if v.task_counter < usize::MAX {
        assert(k != v.task_counter as TaskId);
    }
}

/// A task that ran to completion is never polled again: a run step on a
/// report that keeps to the protocol never hands out a finished task, and the
/// task stays finished. With `lemma_ready_task_is_finished` and
/// `lemma_finished_task_stays_finished`, no sequence of steps polls a task
/// once its poll reported it finished.
pub proof fn lemma_finished_task_is_not_polled_again<T>(
    v: ReactorView<T>,
    event: LoopEvent<T>,
    k: TaskId,
)
    requires
        v.wf(),
        v.finished(k),
        event is Polled ==> v.polling.contains(event->Polled_0.task_id),
    ensures
        ({
            let (after, next) = absorbed(v, event).next_task();
            &&& after.finished(k)
            &&& match next {
                Some((w, _)) => w.task_id != k,
                None => true,
            }
        }),
{
    let mid = absorbed(v, event);
    match event {
        LoopEvent::Ready(events) => {},
        LoopEvent::Polled(w, task, outcome) => {
            assert(w.task_id != k);
        },
    }
    assert(mid.finished(k));
    lemma_only_waiting_tasks_are_handed_out(mid);
}

/// Some wakeup queued by a batch of readiness reports names the task woken
/// by report `j`.
proof fn lemma_report_wakes(entries: Map<usize, Entry>, events: Seq<Readiness>, j: int)
    requires
        0 <= j < events.len(),
        entries.contains_key(events[j].token),
        events[j].readable || events[j].writable,
    ensures
        exists|i: int|
            0 <= i < wakeups_for(entries, events).len() && #[trigger] wakeups_for(
                entries,
                events,
            )[i].task_id == (if events[j].readable {
                entries[events[j].token].reader.task_id
            } else {
                entries[events[j].token].writer.task_id
            }),
    decreases events.len(),
{
    let pre = wakeups_for(entries, events.drop_last());
    let all = wakeups_for(entries, events);
    let k = if events[j].readable {
        entries[events[j].token].reader.task_id
    } else {
        entries[events[j].token].writer.task_id
    };
    if j < events.len() - 1 {
        lemma_report_wakes(entries, events.drop_last(), j);
        assert(events.drop_last()[j] == events[j]);
        let i = choose|i: int| 0 <= i < pre.len() && #[trigger] pre[i].task_id == k;
        assert(all[i] == pre[i]);
    } else {
        assert(events.last() == events[j]);
        assert(all[pre.len() as int].task_id == k);
    }
}

/// Readiness of a token makes the waiting task registered for it due: its
/// reader when the report says readable, else its writer when it says
/// writable. No task leaves the waiting set.
pub proof fn lemma_readiness_makes_registered_task_due<T>(
    v: ReactorView<T>,
    events: Seq<Readiness>,
    j: int,
)
    requires
        0 <= j < events.len(),
        v.entries.contains_key(events[j].token),
        events[j].readable || events[j].writable,
    ensures
        ({
            let e = v.entries[events[j].token];
            let k = if events[j].readable {
                e.reader.task_id
            } else {
                e.writer.task_id
            };
            &&& v.dispatched(events).is_due(k)
            &&& v.dispatched(events).waiting == v.waiting
        }),
{
    lemma_report_wakes(v.entries, events, j);
    let e = v.entries[events[j].token];
    let k = if events[j].readable {
        e.reader.task_id
    } else {
        e.writer.task_id
    };
    let extra = wakeups_for(v.entries, events);
    let i = choose|i: int| 0 <= i < extra.len() && #[trigger] extra[i].task_id == k;
    let a = v.dispatched(events);
    assert(a.run_queue[v.run_queue.len() + i] == extra[i]);
}

/// The position in `queue` of the first wakeup naming task `k`; the length
/// of the queue when none does.
pub open spec fn first_wakeup_of(queue: Seq<Wakeup>, k: TaskId) -> nat
    decreases queue.len(),
{
    if queue.len() == 0 {
        0
    } else if queue[0].task_id == k {
        0
    } else {
        1 + first_wakeup_of(queue.drop_first(), k)
    }
}

/// When a wakeup names task `k`, the first one stands at `first_wakeup_of`.
pub proof fn lemma_first_wakeup_is_found(queue: Seq<Wakeup>, k: TaskId)
    requires
        exists|i: int| 0 <= i < queue.len() && #[trigger] queue[i].task_id == k,
    ensures
        first_wakeup_of(queue, k) < queue.len(),
        queue[first_wakeup_of(queue, k) as int].task_id == k,
    decreases queue.len(),
{
    if queue[0].task_id != k {
        let i = choose|i: int| 0 <= i < queue.len() && #[trigger] queue[i].task_id == k;
        assert(queue.drop_first()[i - 1].task_id == k);
        lemma_first_wakeup_is_found(queue.drop_first(), k);
    }
}

/// Wakeups queued behind a wakeup for task `k` do not move the first one.
pub proof fn lemma_first_wakeup_kept_by_appending(queue: Seq<Wakeup>, more: Seq<Wakeup>, k: TaskId)
    requires
        exists|i: int| 0 <= i < queue.len() && #[trigger] queue[i].task_id == k,
    ensures
        first_wakeup_of(queue + more, k) == first_wakeup_of(queue, k),
    decreases queue.len(),
{
    assert((queue + more)[0] == queue[0]);
    if queue[0].task_id != k {
        let i = choose|i: int| 0 <= i < queue.len() && #[trigger] queue[i].task_id == k;
        assert(queue.drop_first()[i - 1].task_id == k);
        assert((queue + more).drop_first() == queue.drop_first() + more);
        lemma_first_wakeup_kept_by_appending(queue.drop_first(), more, k);
    }
}

/// A task that waits with a wakeup due is handed out before the run loop
/// waits: taking the next task hands out some task, and unless it is this
/// one, this one still waits, with its first due wakeup strictly nearer the
/// front of the queue.
pub proof fn lemma_due_task_is_polled_before_wait<T>(v: ReactorView<T>, k: TaskId)
    requires
        v.waiting.contains_key(k),
        v.is_due(k),
    ensures
        ({
            let (after, next) = v.next_task();
            match next {
                Some((w, _)) => w.task_id != k ==> {
                    &&& after.waiting.contains_key(k)
                    &&& after.is_due(k)
                    &&& first_wakeup_of(after.run_queue, k) < first_wakeup_of(v.run_queue, k)
                },
                None => false,
            }
        }),
    decreases v.run_queue.len(),
{
    let i = choose|i: int| 0 <= i < v.run_queue.len() && #[trigger] v.run_queue[i].task_id == k;
    let w = v.run_queue[0];
    let rest = ReactorView { run_queue: v.run_queue.drop_first(), ..v };
    if w.task_id != k {
        assert(i != 0);
        assert(rest.run_queue[i - 1].task_id == k);
        if v.waiting.contains_key(w.task_id) {
            let (after, next) = v.next_task();
            assert(after.run_queue[i - 1].task_id == k);
        } else {
            lemma_due_task_is_polled_before_wait(rest, k);
        }
    }
}

/// A task registered for a token is polled in the round whose readiness
/// names the token. After `lemma_readiness_makes_registered_task_due`, the
/// task waits with a wakeup due. From such a state, a run step on a report
/// that keeps to the protocol hands out a task rather than waiting, and
/// unless it hands out this one, this one still waits with a wakeup due, and
/// the position of its first due wakeup strictly decreases. Between steps,
/// the wakes and readiness of the round only queue wakeups behind it and
/// filing a poll leaves the queue as it is
/// (`lemma_task_position_kept_between_steps`). The position is a natural
/// number, so within at most that many steps plus one the task is handed
/// out, and the round cannot end in a wait before.
pub proof fn lemma_run_step_reaches_due_task<T>(v: ReactorView<T>, event: LoopEvent<T>, k: TaskId)
    requires
        v.wf(),
        event is Polled ==> v.polling.contains(event->Polled_0.task_id),
        absorbed(v, event).waiting.contains_key(k),
        absorbed(v, event).is_due(k),
    ensures
        ({
            let (after, next) = absorbed(v, event).next_task();
            match next {
                Some((w, _)) => w.task_id != k ==> {
                    &&& after.waiting.contains_key(k)
                    &&& after.is_due(k)
                    &&& first_wakeup_of(after.run_queue, k) < first_wakeup_of(
                        absorbed(v, event).run_queue,
                        k,
                    )
                },
                None => false,
            }
        }),
{
    lemma_due_task_is_polled_before_wait(absorbed(v, event), k);
}

/// Between run steps the position of the first due wakeup of a task does not
/// grow: waking any task and dispatching readiness only queue wakeups behind
/// it, and filing a poll or registering a waker leaves the queue as it is.
pub proof fn lemma_task_position_kept_between_steps<T>(
    v: ReactorView<T>,
    k: TaskId,
    wakeup: Wakeup,
    events: Seq<Readiness>,
    id: TaskId,
    task: T,
    outcome: PollState,
    token: usize,
    waker: CustomWaker,
)
    requires
        v.is_due(k),
    ensures
        v.woken(wakeup).is_due(k),
        first_wakeup_of(v.woken(wakeup).run_queue, k) == first_wakeup_of(v.run_queue, k),
        v.dispatched(events).is_due(k),
        first_wakeup_of(v.dispatched(events).run_queue, k) == first_wakeup_of(v.run_queue, k),
        v.settled(id, task, outcome).run_queue == v.run_queue,
        v.registered(token, waker).run_queue == v.run_queue,
{
    let i = choose|i: int| 0 <= i < v.run_queue.len() && #[trigger] v.run_queue[i].task_id == k;
    lemma_first_wakeup_kept_by_appending(v.run_queue, seq![wakeup], k);
    assert(v.run_queue.push(wakeup) == v.run_queue + seq![wakeup]);
    assert(v.woken(wakeup).run_queue[i].task_id == k);
    lemma_first_wakeup_kept_by_appending(v.run_queue, wakeups_for(v.entries, events), k);
    assert(v.dispatched(events).run_queue[i].task_id == k);
}

/// Filing the poll of a task keeps every other waiting task, and every due
/// wakeup, in place.
pub proof fn lemma_report_keeps_task_due<T>(
    v: ReactorView<T>,
    w: Wakeup,
    task: T,
    outcome: PollState,
    k: TaskId,
)
    requires
        v.wf(),
        v.polling.contains(w.task_id),
        v.waiting.contains_key(k),
        v.is_due(k),
    ensures
        absorbed(v, LoopEvent::Polled(w, task, outcome)).waiting.contains_key(k),
        absorbed(v, LoopEvent::Polled(w, task, outcome)).is_due(k),
{
    let i = choose|i: int| 0 <= i < v.run_queue.len() && #[trigger] v.run_queue[i].task_id == k;
    assert(absorbed(v, LoopEvent::Polled(w, task, outcome)).run_queue[i].task_id == k);
}

/// Waking queues the wakeup at the back of the run queue, whatever the state
/// of the task it names (waiting, being polled, finished, or unknown), and
/// touches nothing else.
pub proof fn lemma_wake_queues_at_the_back<T>(v: ReactorView<T>, wakeup: Wakeup)
    ensures
        v.woken(wakeup).run_queue.len() == v.run_queue.len() + 1,
        v.woken(wakeup).run_queue.last() == wakeup,
        v.woken(wakeup).run_queue.subrange(0, v.run_queue.len() as int) == v.run_queue,
        v.woken(wakeup).entries == v.entries,
        v.woken(wakeup).waiting == v.waiting,
        v.woken(wakeup).polling == v.polling,
        v.woken(wakeup).task_counter == v.task_counter,
{
    assert(v.woken(wakeup).run_queue.subrange(0, v.run_queue.len() as int) == v.run_queue);
}

/// Registering a waker for a token sets both its reader and its writer to
/// that waker, keeps the entries of all other tokens, and touches nothing else.
pub proof fn lemma_register_sets_only_its_token<T>(
    v: ReactorView<T>,
    token: usize,
    waker: CustomWaker,
    other: usize,
)
    ensures
        v.registered(token, waker).entries.contains_key(token),
        v.registered(token, waker).entries[token].reader == waker,
        v.registered(token, waker).entries[token].writer == waker,
        other != token ==> (v.registered(token, waker).entries.contains_key(other)
            == v.entries.contains_key(other) && (v.entries.contains_key(other) ==> v.registered(
            token,
            waker,
        ).entries[other] == v.entries[other])),
        v.registered(token, waker).run_queue == v.run_queue,
        v.registered(token, waker).waiting == v.waiting,
        v.registered(token, waker).polling == v.polling,
        v.registered(token, waker).task_counter == v.task_counter,
{
}

/// Handing out a new task id counts one more task, puts the new task among
/// those being polled, and leaves the due wakeups, the waiting tasks and the
/// registered interests as they were: a task due before a spawn is due after it.
pub proof fn lemma_spawn_leaves_queue_and_interests<T>(v: ReactorView<T>, k: TaskId)
    requires
        v.task_counter < usize::MAX,
    ensures
        v.numbered().task_counter == v.task_counter + 1,
        v.numbered().polling.contains(v.task_counter as TaskId),
        forall|id: TaskId| id != v.task_counter ==> (#[trigger] v.numbered().polling.contains(id)
            == v.polling.contains(id)),
        v.numbered().run_queue == v.run_queue,
        v.numbered().waiting == v.waiting,
        v.numbered().entries == v.entries,
        v.numbered().is_due(k) == v.is_due(k),
{
    assert(v.numbered().run_queue == v.run_queue);
    if v.is_due(k) {
        let i = choose|i: int| 0 <= i < v.run_queue.len() && #[trigger] v.run_queue[i].task_id == k;
        assert(v.numbered().run_queue[i].task_id == k);
    }
    if v.numbered().is_due(k) {
        let i = choose|i: int|
            0 <= i < v.numbered().run_queue.len() && #[trigger] v.numbered().run_queue[i].task_id == k;
        assert(v.run_queue[i].task_id == k);
    }
}

/// Filing a polled task, with either outcome, takes it off the tasks being
/// polled; a pending task then waits under its id with the task handed back,
/// a finished one does not wait. The due wakeups, the registered interests,
/// the other waiting tasks and the counter are left as they were.
pub proof fn lemma_settle_files_only_its_task<T>(
    v: ReactorView<T>,
    id: TaskId,
    task: T,
    outcome: PollState,
    other: TaskId,
)
    ensures
        !v.settled(id, task, outcome).polling.contains(id),
        other != id ==> v.settled(id, task, outcome).polling.contains(other) == v.polling.contains(
            other,
        ),
        outcome == PollState::Pending ==> v.settled(id, task, outcome).waiting.contains_key(id)
            && v.settled(id, task, outcome).waiting[id] == task,
        outcome == PollState::Ready ==> v.settled(id, task, outcome).waiting.contains_key(id)
            == v.waiting.contains_key(id),
        other != id ==> v.settled(id, task, outcome).waiting.contains_key(other)
            == v.waiting.contains_key(other) && (v.waiting.contains_key(other) ==> v.settled(
            id,
            task,
            outcome,
        ).waiting[other] == v.waiting[other]),
        v.settled(id, task, outcome).entries == v.entries,
        v.settled(id, task, outcome).run_queue == v.run_queue,
        v.settled(id, task, outcome).task_counter == v.task_counter,
{
}

/// Dispatching readiness only queues wakeups, behind those already due, and
/// each names the reader or the writer registered for a reported token; the
/// registered interests, the waiting tasks, the tasks being polled and the
/// counter are left as they were.
pub proof fn lemma_dispatch_only_queues_wakeups<T>(v: ReactorView<T>, events: Seq<Readiness>)
    ensures
        v.dispatched(events).entries == v.entries,
        v.dispatched(events).waiting == v.waiting,
        v.dispatched(events).polling == v.polling,
        v.dispatched(events).task_counter == v.task_counter,
        v.dispatched(events).run_queue.len() >= v.run_queue.len(),
        v.dispatched(events).run_queue.subrange(0, v.run_queue.len() as int) == v.run_queue,
        forall|i: int|
            v.run_queue.len() <= i < v.dispatched(events).run_queue.len() ==> wakes_registered(
                v.entries,
                events,
                #[trigger] v.dispatched(events).run_queue[i],
            ),
{
    lemma_wakeups_name_registered_wakers(v.entries, events);
    let extra = wakeups_for(v.entries, events);
    let a = v.dispatched(events);
    assert(a.run_queue.subrange(0, v.run_queue.len() as int) == v.run_queue);
    assert forall|i: int| v.run_queue.len() <= i < a.run_queue.len() implies wakes_registered(
        v.entries,
        events,
        #[trigger] a.run_queue[i],
    ) by {
        assert(a.run_queue[i] == extra[i - v.run_queue.len()]);
    }
}

/// `w` is the wakeup of the reader or of the writer registered for some
/// token that `events` report.
pub open spec fn wakes_registered(entries: Map<usize, Entry>, events: Seq<Readiness>, w: Wakeup) -> bool {
    exists|j: int|
        0 <= j < events.len() && #[trigger] entries.contains_key(events[j].token) && (w
            == wakeup_of(entries[events[j].token].reader) || w == wakeup_of(
            entries[events[j].token].writer,
        ))
}

/// Each wakeup queued by a batch of readiness reports names the reader or the
/// writer of the entry of some reported token.
proof fn lemma_wakeups_name_registered_wakers(entries: Map<usize, Entry>, events: Seq<Readiness>)
    ensures
        forall|i: int|
            0 <= i < wakeups_for(entries, events).len() ==> wakes_registered(
                entries,
                events,
                #[trigger] wakeups_for(entries, events)[i],
            ),
    decreases events.len(),
{
    if events.len() > 0 {
        let init = events.drop_last();
        lemma_wakeups_name_registered_wakers(entries, init);
        let pre = wakeups_for(entries, init);
        let last = wakeups_of(entries, events.last());
        let all = wakeups_for(entries, events);
        assert forall|i: int| 0 <= i < all.len() implies wakes_registered(
            entries,
            events,
            #[trigger] all[i],
        ) by {
            if i < pre.len() {
                assert(all[i] == pre[i]);
                assert(wakes_registered(entries, init, pre[i]));
                let j = choose|j: int|
                    0 <= j < init.len() && #[trigger] entries.contains_key(init[j].token) && (pre[i]
                        == wakeup_of(entries[init[j].token].reader) || pre[i] == wakeup_of(
                        entries[init[j].token].writer,
                    ));
                assert(init[j] == events[j]);
                assert(entries.contains_key(events[j].token));
            } else {
                assert(all[i] == last[i - pre.len()]);
                let j = events.len() - 1;
                assert(events.last() == events[j]);
                assert(entries.contains_key(events[j].token));
            }
        }
    }
}

/// Taking the next task hands out the first due wakeup whose task waits,
/// with that task, after dropping every wakeup before it, whose tasks all do
/// not wait; the wakeups behind it stay due. With no such wakeup nothing is
/// handed out and the queue ends empty.
pub proof fn lemma_next_task_takes_first_waiting<T>(v: ReactorView<T>)
    ensures
        ({
            let (after, next) = v.next_task();
            match next {
                Some((w, t)) => exists|i: int|
                    0 <= i < v.run_queue.len() && #[trigger] v.run_queue[i] == w
                        && v.waiting.contains_key(w.task_id) && t == v.waiting[w.task_id]
                        && after.run_queue == v.run_queue.subrange(i + 1, v.run_queue.len() as int)
                        && forall|j: int|
                        0 <= j < i ==> !v.waiting.contains_key(#[trigger] v.run_queue[j].task_id),
                None => after.run_queue.len() == 0 && forall|j: int|
                    0 <= j < v.run_queue.len() ==> !v.waiting.contains_key(
                        #[trigger] v.run_queue[j].task_id,
                    ),
            }
        }),
    decreases v.run_queue.len(),
{
    if v.run_queue.len() > 0 {
        let w0 = v.run_queue[0];
        let rest = ReactorView { run_queue: v.run_queue.drop_first(), ..v };
        if v.waiting.contains_key(w0.task_id) {
            assert(v.run_queue[0] == w0);
        } else {
            lemma_next_task_takes_first_waiting(rest);
            let (after, next) = v.next_task();
            match next {
                Some((w, t)) => {
                    let i = choose|i: int|
                        0 <= i < rest.run_queue.len() && #[trigger] rest.run_queue[i] == w
                            && rest.waiting.contains_key(w.task_id) && t == rest.waiting[w.task_id]
                            && after.run_queue == rest.run_queue.subrange(
                            i + 1,
                            rest.run_queue.len() as int,
                        ) && forall|j: int|
                            0 <= j < i ==> !rest.waiting.contains_key(
                                #[trigger] rest.run_queue[j].task_id,
                            );
                    assert(v.run_queue[i + 1] == w);
                    assert(after.run_queue == v.run_queue.subrange(i + 2, v.run_queue.len() as int));
                    assert forall|j: int| 0 <= j < i + 1 implies !v.waiting.contains_key(
                        #[trigger] v.run_queue[j].task_id,
                    ) by {
                        if j > 0 {
                            assert(v.run_queue[j] == rest.run_queue[j - 1]);
                        }
                    }
                },
                None => {
                    assert forall|j: int| 0 <= j < v.run_queue.len() implies !v.waiting.contains_key(
                        #[trigger] v.run_queue[j].task_id,
                    ) by {
                        if j > 0 {
                            assert(v.run_queue[j] == rest.run_queue[j - 1]);
                        }
                    }
                },
            }
        }
    }
}

/// A run step on the report of a poll files the polled task exactly as
/// `settle` does (the due wakeups and the interests untouched), before the
/// next task is chosen. In particular a task that woke itself while it was
/// polled and reports pending is polled again before the loop waits: the step
/// hands out a task, and unless it is that one, that one still waits with a
/// wakeup due.
pub proof fn lemma_poll_report_is_filed_then_served<T>(
    v: ReactorView<T>,
    w: Wakeup,
    task: T,
    outcome: PollState,
)
    requires
        v.wf(),
        v.polling.contains(w.task_id),
    ensures
        ({
            let mid = absorbed(v, LoopEvent::Polled(w, task, outcome));
            &&& mid.run_queue == v.run_queue
            &&& mid.entries == v.entries
            &&& mid.task_counter == v.task_counter
            &&& !mid.polling.contains(w.task_id)
            &&& (outcome == PollState::Pending ==> mid.waiting.contains_key(w.task_id)
                && mid.waiting[w.task_id] == task)
            &&& (outcome == PollState::Ready ==> !mid.waiting.contains_key(w.task_id))
            &&& (outcome == PollState::Pending && v.is_due(w.task_id) ==> {
                let (after, next) = mid.next_task();
                match next {
                    Some((w2, _)) => w2.task_id != w.task_id ==> after.waiting.contains_key(
                        w.task_id,
                    ) && after.is_due(w.task_id),
                    None => false,
                }
            })
        }),
{
    let mid = absorbed(v, LoopEvent::Polled(w, task, outcome));
    if outcome == PollState::Pending && v.is_due(w.task_id) {
        let i = choose|i: int|
            0 <= i < v.run_queue.len() && #[trigger] v.run_queue[i].task_id == w.task_id;
        assert(mid.run_queue[i].task_id == w.task_id);
        lemma_due_task_is_polled_before_wait(mid, w.task_id);
    }
}

} // verus!
