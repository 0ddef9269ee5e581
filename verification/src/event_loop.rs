use std::collections::BTreeMap;
use std::collections::BTreeSet;
use std::collections::VecDeque;
use vstd::prelude::*;

use crate::laws::{
    lemma_numbered_keeps_wf, lemma_registered_keeps_wf, lemma_settled_keeps_wf,
    lemma_woken_keeps_wf,
};
use crate::task::{CustomWaker, PollState, TaskId, Wakeup};

verus! {

broadcast use {vstd::laws_cmp::group_laws_cmp, vstd::std_specs::btree::group_btree_axioms};

/// Readiness that the poller reported for one I/O token.
#[derive(Clone, Copy, Debug, PartialEq, Eq, Structural)]
pub struct Readiness {
    pub token: usize,
    pub readable: bool,
    pub writable: bool,
}

/// The wakers registered for one I/O token.
#[derive(Clone, Copy, Debug, PartialEq, Eq, Structural)]
pub struct Entry {
    pub token: usize,
    pub reader: CustomWaker,
    pub writer: CustomWaker,
}

/// How one non-blocking I/O attempt on a registered source ended.
#[derive(Debug, PartialEq, Eq)]
pub enum IoAttempt<R> {
    /// The operation finished, with its result (success or error).
    Finished(R),
    /// The source is not ready; the operation would have blocked.
    WouldBlock,
}

/// What an I/O poll reports to the task that made it.
#[derive(Debug, PartialEq, Eq)]
pub enum IoPoll<R> {
    Ready(R),
    Pending,
}

/// The reactor's state without its invariant; `EventLoop` keeps it well formed.
struct Reactor<T> {
    entry: BTreeMap<usize, Entry>,
    wait_queue: BTreeMap<TaskId, T>,
    run_queue: VecDeque<Wakeup>,
    polling: BTreeSet<TaskId>,
    task_counter: usize,
}

/// The reactor: the tasks that wait to be woken, by id; the wakeups that are
/// due, in the order they came; the tasks handed out to be polled and not yet
/// filed back; the registered interest of each I/O token; and the number of
/// tasks spawned so far.
pub struct EventLoop<T> {
    inner: Reactor<T>,
}

/// The mathematical state of a reactor.
#[verifier::ext_equal]
pub struct ReactorView<T> {
    pub entries: Map<usize, Entry>,
    pub waiting: Map<TaskId, T>,
    pub run_queue: Seq<Wakeup>,
    pub polling: Set<TaskId>,
    pub task_counter: nat,
}

/// The wakeup that waking `waker` queues.
pub open spec fn wakeup_of(waker: CustomWaker) -> Wakeup {
    Wakeup { task_id: waker.task_id, waker: CustomWaker { task_id: waker.task_id } }
}

/// The wakeups that one readiness report queues, given the registered entries:
/// the reader's for readability, then the writer's for writability; none for a
/// token without an entry.
pub open spec fn wakeups_of(entries: Map<usize, Entry>, ev: Readiness) -> Seq<Wakeup> {
    if entries.contains_key(ev.token) {
        let e = entries[ev.token];
        (if ev.readable { seq![wakeup_of(e.reader)] } else { Seq::empty() }) + (if ev.writable {
            seq![wakeup_of(e.writer)]
        } else {
            Seq::empty()
        })
    } else {
        Seq::empty()
    }
}

/// The wakeups that a batch of readiness reports queues, report by report.
pub open spec fn wakeups_for(entries: Map<usize, Entry>, events: Seq<Readiness>) -> Seq<Wakeup>
    decreases events.len(),
{
    if events.len() == 0 {
        Seq::empty()
    } else {
        wakeups_for(entries, events.drop_last()) + wakeups_of(entries, events.last())
    }
}

impl<T> ReactorView<T> {
    /// Every spawned task is in exactly one place: waiting, being polled, or
    /// finished (neither of the two); ids of waiting and polled tasks are
    /// below the counter; every entry is filed under its own token; and every
    /// due wakeup carries the waker of the task it names.
    pub open spec fn wf(self) -> bool {
        &&& forall|id: TaskId| #[trigger]
            self.waiting.contains_key(id) ==> id < self.task_counter && !self.polling.contains(id)
        &&& forall|id: TaskId| #[trigger] self.polling.contains(id) ==> id < self.task_counter
        &&& forall|t: usize| #[trigger] self.entries.contains_key(t) ==> self.entries[t].token == t
        &&& forall|i: int|
            0 <= i < self.run_queue.len() ==> #[trigger] self.run_queue[i] == wakeup_of(
                self.run_queue[i].waker,
            )
    }

    /// Task `id` was spawned and its last poll found it finished: it neither
    /// waits nor is being polled.
    pub open spec fn finished(self, id: TaskId) -> bool {
        &&& id < self.task_counter
        &&& !self.waiting.contains_key(id)
        &&& !self.polling.contains(id)
    }

    /// A wakeup naming task `id` is due.
    pub open spec fn is_due(self, id: TaskId) -> bool {
        exists|i: int| 0 <= i < self.run_queue.len() && #[trigger] self.run_queue[i].task_id == id
    }

    /// The state with `wakeup` queued last.
    pub open spec fn woken(self, wakeup: Wakeup) -> Self {
        ReactorView { run_queue: self.run_queue.push(wakeup), ..self }
    }

    /// The state with `waker` registered as reader and writer of `token`.
    pub open spec fn registered(self, token: usize, waker: CustomWaker) -> Self {
        ReactorView {
            entries: self.entries.insert(token, Entry { token, reader: waker, writer: waker }),
            ..self
        }
    }

    /// The state after the next task id has been handed out: the new task is
    /// being polled for the first time.
    pub open spec fn numbered(self) -> Self {
        ReactorView {
            polling: self.polling.insert(self.task_counter as TaskId),
            task_counter: self.task_counter + 1,
            ..self
        }
    }

    /// The state after task `id` was polled with the given outcome: it is no
    /// longer being polled; a pending task waits under its id, a finished one
    /// is gone.
    pub open spec fn settled(self, id: TaskId, task: T, outcome: PollState) -> Self {
        match outcome {
            PollState::Pending => ReactorView {
                waiting: self.waiting.insert(id, task),
                polling: self.polling.remove(id),
                ..self
            },
            PollState::Ready => ReactorView { polling: self.polling.remove(id), ..self },
        }
    }

    /// The state after a batch of readiness reports was dispatched.
    pub open spec fn dispatched(self, events: Seq<Readiness>) -> Self {
        ReactorView { run_queue: self.run_queue + wakeups_for(self.entries, events), ..self }
    }

    /// The next task to poll and the state after taking it: wakeups are taken
    /// from the front of the queue; one whose task is not waiting is dropped;
    /// the first whose task waits is handed out with the task, which leaves the
    /// waiting set for the set of tasks being polled. With no such wakeup the
    /// queue ends empty and nothing is handed out.
    pub open spec fn next_task(self) -> (Self, Option<(Wakeup, T)>)
        decreases self.run_queue.len(),
    {
        if self.run_queue.len() == 0 {
            (self, None)
        } else {
            let w = self.run_queue[0];
            let rest = ReactorView { run_queue: self.run_queue.drop_first(), ..self };
            if self.waiting.contains_key(w.task_id) {
                (
                    ReactorView {
                        waiting: self.waiting.remove(w.task_id),
                        polling: self.polling.insert(w.task_id),
                        ..rest
                    },
                    Some((w, self.waiting[w.task_id])),
                )
            } else {
                rest.next_task()
            }
        }
    }
}

impl<T> View for Reactor<T> {
    type V = ReactorView<T>;

    closed spec fn view(&self) -> ReactorView<T> {
        ReactorView {
            entries: self.entry@,
            waiting: self.wait_queue@,
            run_queue: self.run_queue@,
            polling: self.polling@,
            task_counter: self.task_counter as nat,
        }
    }
}

impl<T> View for EventLoop<T> {
    type V = ReactorView<T>;

    closed spec fn view(&self) -> ReactorView<T> {
        self.inner@
    }
}

impl<T> Reactor<T> {
    fn empty() -> (r: Self)
        ensures
            r@.wf(),
            r@.entries == Map::<usize, Entry>::empty(),
            r@.waiting == Map::<TaskId, T>::empty(),
            r@.run_queue == Seq::<Wakeup>::empty(),
            r@.polling == Set::<TaskId>::empty(),
            r@.task_counter == 0,
    {
        Reactor {
            entry: BTreeMap::new(),
            wait_queue: BTreeMap::new(),
            run_queue: VecDeque::new(),
            polling: BTreeSet::new(),
            task_counter: 0,
        }
    }

    fn wake(&mut self, wakeup: Wakeup)
        requires
            old(self)@.wf(),
            wakeup == wakeup_of(wakeup.waker),
        ensures
            final(self)@ == old(self)@.woken(wakeup),
            final(self)@.wf(),
    {
        self.run_queue.push_back(wakeup);
        assert(self.wait_queue@ == old(self).wait_queue@);
        assert(self.polling@ == old(self).polling@);
        assert(self.entry@ == old(self).entry@);
        proof {
            lemma_woken_keeps_wf(old(self)@, wakeup);
        }
    }

    fn register_entry(&mut self, token: usize, waker: CustomWaker)
        requires
            old(self)@.wf(),
        ensures
            final(self)@ == old(self)@.registered(token, waker),
            final(self)@.wf(),
    {
        self.entry.insert(token, Entry { token, reader: waker, writer: waker });
        assert(self.wait_queue@ == old(self).wait_queue@);
        assert(self.polling@ == old(self).polling@);
        proof {
            lemma_registered_keeps_wf(old(self)@, token, waker);
        }
    }

    fn next_task_id(&mut self) -> (id: TaskId)
        requires
            old(self)@.wf(),
            old(self)@.task_counter < usize::MAX,
        ensures
            id == old(self)@.task_counter,
            final(self)@ == old(self)@.numbered(),
            final(self)@.wf(),
    {
        let id = self.task_counter;
        self.polling.insert(id);
        self.task_counter = id + 1;
        assert(self.wait_queue@ == old(self).wait_queue@);
        assert(self.entry@ == old(self).entry@);
        proof {
            lemma_numbered_keeps_wf(old(self)@);
        }
        id
    }

    fn settle(&mut self, task_id: TaskId, task: T, outcome: PollState)
        requires
            old(self)@.wf(),
            old(self)@.polling.contains(task_id),
        ensures
            final(self)@ == old(self)@.settled(task_id, task, outcome),
            final(self)@.wf(),
            final(self)@.polling == old(self)@.polling.remove(task_id),
            final(self)@.waiting == (match outcome {
                PollState::Pending => old(self)@.waiting.insert(task_id, task),
                PollState::Ready => old(self)@.waiting,
            }),
            final(self)@.run_queue == old(self)@.run_queue,
            final(self)@.entries == old(self)@.entries,
            final(self)@.task_counter == old(self)@.task_counter,
    {
        self.polling.remove(&task_id);
        match outcome {
            PollState::Pending => {
                self.wait_queue.insert(task_id, task);
            },
            PollState::Ready => {},
        }
        assert(self.entry@ == old(self).entry@);
        assert(self.run_queue@ == old(self).run_queue@);
        assert(self.polling@ == old(self)@.polling.remove(task_id));
        proof {
            lemma_settled_keeps_wf(old(self)@, task_id, task, outcome);
        }
    }

    fn dispatch(&mut self, events: &Vec<Readiness>)
        requires
            old(self)@.wf(),
        ensures
            final(self)@ == old(self)@.dispatched(events@),
            final(self)@.wf(),
    {
        let mut i: usize = 0;
        while i < events.len()
            invariant
                0 <= i <= events.len(),
                self@ == old(self)@.dispatched(events@.take(i as int)),
                self@.wf(),
            decreases events.len() - i,
        {
            let ev = events[i];
            match self.entry.get(&ev.token) {
                Some(e) => {
                    let e: Entry = *e;
                    if ev.readable {
                        // What waking the reader does: see `CustomWaker::wake_by_ref`.
                        self.wake(Wakeup { task_id: e.reader.task_id, waker: CustomWaker::new(e.reader.task_id) });
                    }
                    if ev.writable {
                        self.wake(Wakeup { task_id: e.writer.task_id, waker: CustomWaker::new(e.writer.task_id) });
                    }
                },
                None => {},
            }
            assert(events@.take(i + 1).drop_last() == events@.take(i as int));
            i += 1;
        }
        assert(events@.take(events.len() as int) == events@);
    }

    fn next_task(&mut self) -> (r: Option<(Wakeup, T)>)
        requires
            old(self)@.wf(),
        ensures
            (final(self)@, r) == old(self)@.next_task(),
            final(self)@.wf(),
    {
        loop
            invariant
                self@.wf(),
                self@.next_task() == old(self)@.next_task(),
            decreases self@.run_queue.len(),
        {
            let ghost prev = self@;
            match self.run_queue.pop_front() {
                None => {
                    return None;
                },
                Some(w) => {
                    assert(self@.run_queue == prev.run_queue.drop_first());
                    assert(self.polling@ == prev.polling);
                    assert(self.entry@ == prev.entries);
                    match self.wait_queue.remove(&w.task_id) {
                        Some(task) => {
                            self.polling.insert(w.task_id);
                            return Some((w, task));
                        },
                        None => {
                            assert(self@ == ReactorView {
                                run_queue: prev.run_queue.drop_first(),
                                ..prev
                            });
                        },
                    }
                },
            }
        }
    }
}

impl<T> EventLoop<T> {
    /// A reactor is always well formed.
    #[verifier::type_invariant]
    spec fn inv(self) -> bool {
        self.inner@.wf()
    }

    /// Takes the state out for an update, leaving an empty, well formed one.
    fn take(&mut self) -> (r: Reactor<T>)
        ensures
            r@ == old(self)@,
            r@.wf(),
    {
        proof {
            use_type_invariant(&*self);
        }
        let mut r = Reactor::empty();
        std::mem::swap(&mut r, &mut self.inner);
        r
    }

    /// An empty reactor: no task spawned, none waiting or being polled,
    /// nothing due, no interest.
    pub fn new() -> (r: Self)
        ensures
            r@.wf(),
            r@.entries == Map::<usize, Entry>::empty(),
            r@.waiting == Map::<TaskId, T>::empty(),
            r@.run_queue == Seq::<Wakeup>::empty(),
            r@.polling == Set::<TaskId>::empty(),
            r@.task_counter == 0,
    {
        EventLoop { inner: Reactor::empty() }
    }

    /// Queues `wakeup`, which carries the waker of the task it names, behind
    /// the wakeups already due.
    pub fn wake(&mut self, wakeup: Wakeup)
        requires
            wakeup == wakeup_of(wakeup.waker),
        ensures
            final(self)@ == old(self)@.woken(wakeup),
            final(self)@.wf(),
            final(self)@.run_queue == old(self)@.run_queue.push(wakeup),
            final(self)@.entries == old(self)@.entries,
            final(self)@.waiting == old(self)@.waiting,
            final(self)@.polling == old(self)@.polling,
            final(self)@.task_counter == old(self)@.task_counter,
    {
        let mut r = self.take();
        r.wake(wakeup);
        self.inner = r;
    }

    /// Registers `waker` as the reader and the writer of `token`, in place of
    /// whatever was registered for it before.
    pub fn register_entry(&mut self, token: usize, waker: CustomWaker)
        ensures
            final(self)@ == old(self)@.registered(token, waker),
            final(self)@.wf(),
    {
        let mut r = self.take();
        r.register_entry(token, waker);
        self.inner = r;
    }

    /// Hands out the id of the task about to be spawned, the number of tasks
    /// spawned before it; the task counts as being polled until it is filed
    /// with `settle`.
    pub fn next_task_id(&mut self) -> (id: TaskId)
        requires
            old(self)@.task_counter < usize::MAX,
        ensures
            id == old(self)@.task_counter,
            !old(self)@.waiting.contains_key(id),
            !old(self)@.polling.contains(id),
            final(self)@ == old(self)@.numbered(),
            final(self)@.wf(),
            final(self)@.task_counter == old(self)@.task_counter + 1,
            final(self)@.polling == old(self)@.polling.insert(id),
            final(self)@.run_queue == old(self)@.run_queue,
            final(self)@.waiting == old(self)@.waiting,
            final(self)@.entries == old(self)@.entries,
    {
        let mut r = self.take();
        let id = r.next_task_id();
        self.inner = r;
        id
    }

    /// Files task `task_id`, which was handed out to be polled, after its
    /// poll: it waits under its id when the poll left it pending, and is
    /// dropped when it ran to completion.
    pub fn settle(&mut self, task_id: TaskId, task: T, outcome: PollState)
        requires
            old(self)@.polling.contains(task_id),
        ensures
            final(self)@ == old(self)@.settled(task_id, task, outcome),
            final(self)@.wf(),
    {
        let mut r = self.take();
        r.settle(task_id, task, outcome);
        self.inner = r;
    }

    /// Wakes, for each readiness report in turn, the reader of its token when
    /// it is readable and then the writer when it is writable. Reports for
    /// tokens with no entry wake nothing.
    pub fn dispatch(&mut self, events: &Vec<Readiness>)
        ensures
            final(self)@ == old(self)@.dispatched(events@),
            final(self)@.wf(),
            final(self)@.entries == old(self)@.entries,
            final(self)@.waiting == old(self)@.waiting,
            final(self)@.polling == old(self)@.polling,
            final(self)@.task_counter == old(self)@.task_counter,
            final(self)@.run_queue.subrange(0, old(self)@.run_queue.len() as int)
                == old(self)@.run_queue,
    {
        proof {
            crate::laws::lemma_dispatch_only_queues_wakeups(old(self)@, events@);
        }
        let mut r = self.take();
        r.dispatch(events);
        self.inner = r;
    }

    /// Takes the next task to poll, with the wakeup that made it due; see
    /// `ReactorView::next_task`.
    pub fn next_task(&mut self) -> (r: Option<(Wakeup, T)>)
        ensures
            (final(self)@, r) == old(self)@.next_task(),
            final(self)@.wf(),
    {
        let mut inner = self.take();
        let r = inner.next_task();
        self.inner = inner;
        r
    }

    /// Settles one non-blocking I/O attempt on `token` made by the task woken
    /// by `waker`: a finished attempt is reported ready with its result; an
    /// attempt that would block registers `waker` for `token` and reports
    /// pending, so that readiness of `token` wakes the task.
    pub fn poll_io<R>(&mut self, token: usize, waker: CustomWaker, attempt: IoAttempt<R>) -> (r:
        IoPoll<R>)
        ensures
            final(self)@.wf(),
            match attempt {
                IoAttempt::Finished(v) => r == IoPoll::Ready(v) && final(self)@ == old(self)@,
                IoAttempt::WouldBlock => r is Pending && final(self)@ == old(self)@.registered(
                    token,
                    waker,
                ),
            },
    {
        proof {
            use_type_invariant(&*self);
        }
        match attempt {
            IoAttempt::Finished(v) => IoPoll::Ready(v),
            IoAttempt::WouldBlock => {
                self.register_entry(token, waker);
                IoPoll::Pending
            },
        }
    }

    /// The number of tasks spawned so far.
    pub fn task_count(&self) -> (n: usize)
        ensures
            n == self@.task_counter,
            self@.wf(),
    {
        proof {
            use_type_invariant(self);
        }
        self.inner.task_counter
    }

    /// Whether task `task_id` waits to be woken.
    pub fn is_waiting(&self, task_id: TaskId) -> (b: bool)
        ensures
            b == self@.waiting.contains_key(task_id),
            self@.wf(),
    {
        proof {
            use_type_invariant(self);
        }
        self.inner.wait_queue.contains_key(&task_id)
    }

    /// Whether task `task_id` was handed out to be polled and not yet filed back.
    pub fn is_polling(&self, task_id: TaskId) -> (b: bool)
        ensures
            b == self@.polling.contains(task_id),
            self@.wf(),
    {
        proof {
            use_type_invariant(self);
        }
        self.inner.polling.contains(&task_id)
    }

    /// The number of wakeups that are due.
    pub fn due_wakeups(&self) -> (n: usize)
        ensures
            n == self@.run_queue.len(),
            self@.wf(),
    {
        proof {
            use_type_invariant(self);
        }
        self.inner.run_queue.len()
    }
}

} // verus!
