//! What holds of every pool, whatever the order in which submitters and
//! workers reach it.
//!
//! The threads of a running pool take turns at the lock, so a history of the
//! pool is a sequence of events, each one transition of the model. The laws
//! below are stated of every such sequence.

use vstd::prelude::*;
use crate::model::Outcome;
use crate::model::PoolView;
use crate::model::WorkerView;
use crate::task::TaskView;

verus! {

/// One turn at the pool.
pub enum Event {
    /// A submitter offers a task.
    Submit(TaskView),
    /// A worker asks for work.
    Poll(nat),
    /// A worker reports the end of its task.
    Finish(nat, Outcome),
    /// Shutdown begins.
    Shutdown,
}

/// What the workers together still have to do before all have stopped.
pub open spec fn load(workers: Seq<WorkerView>) -> nat
    decreases workers.len(),
{
    if workers.len() == 0 {
        0
    } else {
        load(workers.drop_last()) + workers.last().weight()
    }
}

/// Every task that a submitter offered in `events`, in the order of the
/// offers.
pub open spec fn offered(events: Seq<Event>) -> Seq<TaskView>
    decreases events.len(),
{
    if events.len() == 0 {
        Seq::empty()
    } else {
        match events.last() {
            Event::Submit(task) => offered(events.drop_last()).push(task),
            _ => offered(events.drop_last()),
        }
    }
}

/// Whether shutdown does not begin in `events`.
pub open spec fn stays_open(events: Seq<Event>) -> bool {
    forall|i: int| 0 <= i < events.len() ==> !(#[trigger] events[i] is Shutdown)
}

/// `rounds` times over, the worker `worker` takes a task and completes it.
pub open spec fn serve(worker: nat, rounds: nat) -> Seq<Event>
    decreases rounds,
{
    if rounds == 0 {
        Seq::empty()
    } else {
        serve(worker, (rounds - 1) as nat).push(Event::Poll(worker)).push(
            Event::Finish(worker, Outcome::Completed),
        )
    }
}

impl PoolView {
    /// The pool after one event.
    pub open spec fn step(self, event: Event) -> PoolView {
        match event {
            Event::Submit(task) => self.submit(task),
            Event::Poll(worker) => self.poll(worker),
            Event::Finish(worker, outcome) => self.finish(worker, outcome),
            Event::Shutdown => self.shut(),
        }
    }

    /// The pool after a sequence of events, first to last.
    pub open spec fn run(self, events: Seq<Event>) -> PoolView
        decreases events.len(),
    {
        if events.len() == 0 {
            self
        } else {
            self.run(events.drop_last()).step(events.last())
        }
    }

    /// The tasks that were offered in `events` and not refused, in the order
    /// in which they were offered.
    pub open spec fn admitted(self, events: Seq<Event>) -> Seq<TaskView>
        decreases events.len(),
    {
        if events.len() == 0 {
            Seq::empty()
        } else {
            let earlier = self.admitted(events.drop_last());
            match events.last() {
                Event::Submit(task) => if self.run(events.drop_last()).refusal() is None {
                    earlier.push(task)
                } else {
                    earlier
                },
                _ => earlier,
            }
        }
    }

    /// The number of worker steps that a closed pool is away from having
    /// every worker stopped: two for each pending task, to take it and to
    /// finish it, and what each worker has to do for itself.
    pub open spec fn remaining(self) -> nat {
        2 * self.pending().len() + load(self.workers)
    }

    /// The step that the worker `worker` can make in a closed pool: a busy
    /// worker finishes, any other asks for work.
    pub open spec fn advance(self, worker: nat, outcome: Outcome) -> PoolView {
        if self.is_executing(worker) {
            self.finish(worker, outcome)
        } else {
            self.poll(worker)
        }
    }

    /// Every event keeps the pool well formed.
    pub proof fn lemma_step_wf(self, event: Event)
        requires
            self.wf(),
        ensures
            self.step(event).wf(),
    {
        match event {
            Event::Submit(task) => self.lemma_submit_wf(task),
            Event::Poll(worker) => self.lemma_poll_wf(worker),
            Event::Finish(worker, outcome) => self.lemma_finish_wf(worker, outcome),
            Event::Shutdown => self.lemma_shut_wf(),
        }
    }

    /// Every history keeps the pool well formed, and changes neither the
    /// number of workers nor the queue's limit.
    pub proof fn lemma_run_wf(self, events: Seq<Event>)
        requires
            self.wf(),
        ensures
            self.run(events).wf(),
            self.run(events).size() == self.size(),
            self.run(events).limit == self.limit,
        decreases events.len(),
    {
        if events.len() > 0 {
            self.lemma_run_wf(events.drop_last());
            self.run(events.drop_last()).lemma_step_wf(events.last());
        }
    }

    /// Running a history and then one more event is running the longer
    /// history.
    pub proof fn lemma_run_push(self, events: Seq<Event>, event: Event)
        ensures
            self.run(events.push(event)) == self.run(events).step(event),
    {
        assert(events.push(event).drop_last() =~= events);
    }

    /// No accepted task is lost or doubled: after any history the accepted
    /// tasks are those accepted before, followed by each task that was
    /// offered and not refused, once each and in the order of the offers.
    pub proof fn lemma_run_accepts_admitted(self, events: Seq<Event>)
        ensures
            self.run(events).accepted == self.accepted + self.admitted(events),
        decreases events.len(),
    {
        if events.len() == 0 {
            assert(self.accepted + Seq::<TaskView>::empty() =~= self.accepted);
        } else {
            let earlier = events.drop_last();
            self.lemma_run_accepts_admitted(earlier);
            let before = self.run(earlier);
            match events.last() {
                Event::Submit(task) => {
                    if before.refusal() is None {
                        assert((self.accepted + self.admitted(earlier)).push(task)
                            =~= self.accepted + self.admitted(earlier).push(task));
                    }
                },
                _ => {},
            }
        }
    }

    /// A history in two parts is the first part, then the second from where
    /// the first ended.
    pub proof fn lemma_run_concat(self, first: Seq<Event>, second: Seq<Event>)
        ensures
            self.run(first + second) == self.run(first).run(second),
            self.admitted(first + second) == self.admitted(first) + self.run(first).admitted(
                second,
            ),
        decreases second.len(),
    {
        if second.len() == 0 {
            assert(first + second =~= first);
            assert(self.admitted(first) + Seq::<TaskView>::empty() =~= self.admitted(first));
        } else {
            let whole = first + second;
            assert(whole.drop_last() =~= first + second.drop_last());
            assert(whole.last() == second.last());
            self.lemma_run_concat(first, second.drop_last());
            let head = self.admitted(first);
            let tail = self.run(first).admitted(second.drop_last());
            match second.last() {
                Event::Submit(task) => {
                    assert((head + tail).push(task) =~= head + tail.push(task));
                },
                _ => {},
            }
        }
    }

    /// While the pool is open and its queue has room, no offer is refused:
    /// if shutdown does not begin in `events` and the limit leaves room for
    /// every task offered in them, then every one of them is accepted,
    /// however the submitters and the workers take turns.
    pub proof fn lemma_open_pool_admits_all(self, events: Seq<Event>)
        requires
            self.wf(),
            self.accepting,
            stays_open(events),
            self.pending().len() + offered(events).len() <= self.limit,
        ensures
            self.run(events).accepting,
            self.run(events).executions.len() >= self.executions.len(),
            self.admitted(events) == offered(events),
        decreases events.len(),
    {
        if events.len() > 0 {
            let earlier = events.drop_last();
            assert forall|i: int| 0 <= i < earlier.len() implies !(#[trigger] earlier[i]
                is Shutdown) by {
                assert(earlier[i] == events[i]);
            }
            assert(!(events[events.len() - 1] is Shutdown));
            self.lemma_open_pool_admits_all(earlier);
            self.lemma_run_accepts_admitted(earlier);
            self.lemma_run_wf(earlier);
            let before = self.run(earlier);
            assert(before.accepted.len() == self.accepted.len() + offered(earlier).len());
            match events.last() {
                Event::Poll(worker) => {
                    before.lemma_poll_wf(worker);
                },
                Event::Finish(worker, outcome) => {
                    if before.is_executing(worker) {
                        assert(before.worker_ok(worker as int));
                    }
                },
                _ => {},
            }
        }
    }

    /// No task is lost under concurrent submission: let any number of
    /// submitters offer their tasks to a new pool, in any order and with the
    /// workers at work between them, while the pool is open and its queue
    /// has room; let anything follow. Once every worker has stopped, each of
    /// the tasks offered has been run exactly once, to its end.
    pub proof fn lemma_concurrent_submissions_all_run(
        size: nat,
        limit: nat,
        submissions: Seq<Event>,
        rest: Seq<Event>,
    )
        requires
            size >= 1,
            stays_open(submissions),
            offered(submissions).len() <= limit,
            Self::fresh(size, limit).run(submissions + rest).all_stopped(),
        ensures
            ({
                let end = Self::fresh(size, limit).run(submissions + rest);
                let tasks = offered(submissions);
                &&& tasks.len() <= end.accepted.len()
                &&& end.executions.len() == end.accepted.len()
                &&& forall|i: nat| i < tasks.len() ==> #[trigger] end.accepted[i as int] == tasks[i as int]
                &&& forall|i: nat| i < tasks.len() ==> #[trigger] end.runs_of(i) == set![i as int]
                &&& forall|i: nat| i < tasks.len() ==> #[trigger] end.is_done(i)
            }),
    {
        let start = Self::fresh(size, limit);
        let end = start.run(submissions + rest);
        Self::lemma_fresh_wf(size, limit);
        start.lemma_open_pool_admits_all(submissions);
        start.lemma_run_concat(submissions, rest);
        start.lemma_run_accepts_admitted(submissions + rest);
        start.lemma_run_wf(submissions + rest);
        end.lemma_stopped_pool_ran_everything();
        let tasks = offered(submissions);
        assert forall|i: nat| i < tasks.len() implies #[trigger] end.accepted[i as int]
            == tasks[i as int] by {}
    }

    /// A task is never run twice: the executions that ran task `task` are
    /// the one at position `task` of the log, if the log is that long, and no
    /// other. That execution names one worker of the pool.
    pub proof fn lemma_at_most_once(self, task: nat)
        requires
            self.wf(),
        ensures
            task < self.executions.len() ==> self.runs_of(task) == set![task as int],
            task < self.executions.len() ==> self.executions[task as int].worker < self.size(),
            task >= self.executions.len() ==> self.runs_of(task) == Set::<int>::empty(),
            self.runs_of(task).finite(),
            self.runs_of(task).len() <= 1,
    {
        assert forall|k: int| self.runs_of(task).contains(k) implies k == task by {
            assert(self.execution_ok(k));
        }
        if task < self.executions.len() {
            assert(self.execution_ok(task as int));
            assert(self.runs_of(task) =~= set![task as int]);
        } else {
            assert(self.runs_of(task) =~= Set::<int>::empty());
        }
    }

    /// Teardown returns only when the queue is drained: in a pool whose
    /// workers have all stopped, nothing is pending, nothing is in flight,
    /// and every accepted task was run exactly once, to its end.
    pub proof fn lemma_stopped_pool_ran_everything(self)
        requires
            self.wf(),
            self.all_stopped(),
        ensures
            !self.accepting,
            self.pending().len() == 0,
            self.executions.len() == self.accepted.len(),
            forall|task: nat|
                task < self.accepted.len() ==> #[trigger] self.runs_of(task) == set![task as int],
            forall|task: nat| task < self.accepted.len() ==> #[trigger] self.is_done(task),
    {
        assert(self.workers[0] is Stopped);
        assert(self.worker_ok(0));
        assert forall|task: nat| task < self.accepted.len() implies #[trigger] self.runs_of(task)
            == set![task as int] by {
            self.lemma_at_most_once(task);
        }
        assert forall|task: nat| task < self.accepted.len() implies #[trigger] self.is_done(
            task,
        ) by {
            assert(self.execution_ok(task as int));
            assert(self.workers[self.executions[task as int].worker as int] is Stopped);
        }
    }

    /// Exactly as many executions as submissions: take a new pool through
    /// any history, with any number of submitters taking turns in any order.
    /// If its workers have all stopped at the end, the tasks it ran are the
    /// tasks that were offered and not refused, each run exactly once and to
    /// its end.
    pub proof fn lemma_no_task_lost(size: nat, limit: nat, events: Seq<Event>)
        requires
            size >= 1,
            Self::fresh(size, limit).run(events).all_stopped(),
        ensures
            ({
                let start = Self::fresh(size, limit);
                let end = start.run(events);
                &&& end.accepted == start.admitted(events)
                &&& end.executions.len() == start.admitted(events).len()
                &&& forall|task: nat|
                    task < start.admitted(events).len() ==> #[trigger] end.runs_of(task)
                        == set![task as int]
                &&& forall|task: nat|
                    task < start.admitted(events).len() ==> #[trigger] end.is_done(task)
            }),
    {
        let start = Self::fresh(size, limit);
        let end = start.run(events);
        Self::lemma_fresh_wf(size, limit);
        start.lemma_run_wf(events);
        start.lemma_run_accepts_admitted(events);
        assert(start.accepted + start.admitted(events) =~= start.admitted(events));
        end.lemma_stopped_pool_ran_everything();
    }

    /// A worker is served whatever the others are doing: whether a poll
    /// hands it a task, and which, depends on the queue and on that worker
    /// alone. Two pools with the same queue treat an idle worker alike, even
    /// if in one of them every other worker is busy for ever.
    pub proof fn lemma_poll_ignores_other_workers(self, other: PoolView, worker: nat)
        requires
            self.wf(),
            other.wf(),
            self.is_idle(worker),
            other.is_idle(worker),
            self.pending() == other.pending(),
            self.accepting == other.accepting,
        ensures
            self.takes(worker) == other.takes(worker),
            self.retires(worker) == other.retires(worker),
            self.poll(worker).workers[worker as int].state() == other.poll(
                worker,
            ).workers[worker as int].state(),
            self.poll(worker).pending() == other.poll(worker).pending(),
    {
        if self.takes(worker) {
            assert(self.poll(worker).pending() =~= self.pending().skip(1));
            assert(other.poll(worker).pending() =~= other.pending().skip(1));
        } else {
            assert(self.poll(worker).pending() =~= self.pending());
            assert(other.poll(worker).pending() =~= other.pending());
        }
    }

    /// A poll or the end of a task changes no worker but the one that made
    /// the call.
    pub proof fn lemma_step_leaves_other_workers(self, worker: nat, outcome: Outcome, other: nat)
        requires
            other < self.size(),
            other != worker,
        ensures
            self.poll(worker).workers[other as int] == self.workers[other as int],
            self.finish(worker, outcome).workers[other as int] == self.workers[other as int],
    {
    }

    /// One idle worker is enough to empty the queue: while it takes and
    /// completes `rounds` pending tasks, one after the other, no other
    /// worker has to move. A worker that is stuck in its task stays as it
    /// is, and the tasks queued behind it are run all the same.
    pub proof fn lemma_one_worker_serves_the_queue(self, worker: nat, rounds: nat)
        requires
            self.wf(),
            self.is_idle(worker),
            rounds <= self.pending().len(),
        ensures
            ({
                let end = self.run(serve(worker, rounds));
                &&& end.wf()
                &&& end.is_idle(worker)
                &&& end.accepted == self.accepted
                &&& end.accepting == self.accepting
                &&& end.executions.len() == self.executions.len() + rounds
                &&& forall|w: int|
                    0 <= w < self.workers.len() ==> #[trigger] end.workers[w] == self.workers[w]
                &&& forall|k: int|
                    0 <= k < self.executions.len() ==> #[trigger] end.executions[k]
                        == self.executions[k]
                &&& forall|task: nat|
                    self.executions.len() <= task < self.executions.len() + rounds ==> {
                        &&& #[trigger] end.is_done(task)
                        &&& end.executions[task as int].worker == worker
                    }
            }),
        decreases rounds,
    {
        if rounds == 0 {
            assert(serve(worker, rounds) =~= Seq::<Event>::empty());
        } else {
            let less = (rounds - 1) as nat;
            self.lemma_one_worker_serves_the_queue(worker, less);
            let mid = self.run(serve(worker, less));
            let polled = serve(worker, less).push(Event::Poll(worker));
            self.lemma_run_push(serve(worker, less), Event::Poll(worker));
            self.lemma_run_push(polled, Event::Finish(worker, Outcome::Completed));
            let taken = mid.poll(worker);
            let end = taken.finish(worker, Outcome::Completed);
            assert(self.run(serve(worker, rounds)) == end);
            assert(mid.takes(worker));
            mid.lemma_poll_wf(worker);
            taken.lemma_finish_wf(worker, Outcome::Completed);
            assert(end.workers =~= mid.workers);
            assert forall|w: int| 0 <= w < self.workers.len() implies #[trigger] end.workers[w]
                == self.workers[w] by {
                assert(mid.workers[w] == self.workers[w]);
            }
            assert forall|k: int| 0 <= k < self.executions.len() implies #[trigger] end.executions[k]
                == self.executions[k] by {
                assert(mid.executions[k] == self.executions[k]);
            }
            assert forall|task: nat|
                self.executions.len() <= task < self.executions.len() + rounds implies {
                &&& #[trigger] end.is_done(task)
                &&& end.executions[task as int].worker == worker
            } by {
                if task < self.executions.len() + less {
                    assert(mid.is_done(task));
                }
            }
        }
    }

    /// Replacing one worker's state changes the load by the difference of
    /// the two weights.
    pub proof fn lemma_load_update(workers: Seq<WorkerView>, w: int, state: WorkerView)
        requires
            0 <= w < workers.len(),
        ensures
            load(workers.update(w, state)) + workers[w].weight() == load(workers) + state.weight(),
        decreases workers.len(),
    {
        let changed = workers.update(w, state);
        if w == workers.len() - 1 {
            assert(changed.drop_last() =~= workers.drop_last());
        } else {
            assert(changed.drop_last() =~= workers.drop_last().update(w, state));
            Self::lemma_load_update(workers.drop_last(), w, state);
        }
    }

    /// The load is zero exactly when every worker has stopped.
    pub proof fn lemma_load_zero(workers: Seq<WorkerView>)
        ensures
            load(workers) == 0 <==> forall|w: int|
                0 <= w < workers.len() ==> #[trigger] workers[w] is Stopped,
        decreases workers.len(),
    {
        if workers.len() > 0 {
            let front = workers.drop_last();
            Self::lemma_load_zero(front);
            if load(workers) == 0 {
                assert forall|w: int| 0 <= w < workers.len() implies #[trigger] workers[w]
                    is Stopped by {
                    if w < front.len() {
                        assert(front[w] is Stopped);
                    }
                }
            }
            if forall|w: int| 0 <= w < workers.len() ==> #[trigger] workers[w] is Stopped {
                assert forall|w: int| 0 <= w < front.len() implies #[trigger] front[w]
                    is Stopped by {
                    assert(workers[w] is Stopped);
                }
                assert(workers[workers.len() - 1] is Stopped);
            }
        }
    }

    /// Shutdown always comes to an end: in a closed pool, every worker that
    /// has not stopped can make a step, and that step brings the pool one
    /// closer to having every worker stopped. However many tasks are
    /// pending, and however few the workers, the distance is finite.
    pub proof fn lemma_shutdown_advances(self, worker: nat, outcome: Outcome)
        requires
            self.wf(),
            !self.accepting,
            worker < self.size(),
            !self.is_stopped(worker),
        ensures
            self.advance(worker, outcome).wf(),
            !self.advance(worker, outcome).accepting,
            self.advance(worker, outcome).remaining() + 1 == self.remaining(),
    {
        let next = self.advance(worker, outcome);
        if self.is_executing(worker) {
            self.lemma_finish_wf(worker, outcome);
            assert(self.worker_ok(worker as int));
            assert(next.pending() =~= self.pending());
            Self::lemma_load_update(self.workers, worker as int, WorkerView::Idle);
        } else {
            self.lemma_poll_wf(worker);
            if self.takes(worker) {
                assert(next.pending() =~= self.pending().skip(1));
                Self::lemma_load_update(
                    self.workers,
                    worker as int,
                    WorkerView::Executing(self.executions.len()),
                );
            } else {
                assert(self.retires(worker));
                Self::lemma_load_update(self.workers, worker as int, WorkerView::Stopped);
            }
        }
    }

    /// Once the pool is closed, no event adds to what is left to do.
    pub proof fn lemma_closed_pool_gains_no_work(self, event: Event)
        requires
            self.wf(),
            !self.accepting,
        ensures
            !self.step(event).accepting,
            self.step(event).remaining() <= self.remaining(),
    {
        match event {
            Event::Submit(_) => {},
            Event::Shutdown => {
                assert(self.shut().pending() =~= self.pending());
            },
            Event::Poll(worker) => {
                if self.takes(worker) || self.retires(worker) {
                    self.lemma_shutdown_advances(worker, Outcome::Completed);
                }
            },
            Event::Finish(worker, outcome) => {
                if self.is_executing(worker) {
                    self.lemma_shutdown_advances(worker, outcome);
                }
            },
        }
    }

    /// A closed pool has nothing left to do exactly when every worker has
    /// stopped.
    pub proof fn lemma_drained_when_nothing_remains(self)
        requires
            self.wf(),
            !self.accepting,
        ensures
            self.remaining() == 0 <==> self.all_stopped(),
    {
        Self::lemma_load_zero(self.workers);
        if self.all_stopped() {
            self.lemma_stopped_pool_ran_everything();
        }
    }
}

} // verus!
