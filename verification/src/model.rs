//! The worker pool as a mathematical object.
//!
//! A pool is described by every task it ever accepted, every execution it
//! ever started, and what each worker is doing now. The queue is not stored:
//! tasks are started in the order in which they were accepted, so the pending
//! tasks are the accepted ones that no execution has reached yet.
//!
//! Four transitions change a pool: a submission, a worker asking for work, a
//! worker reporting the end of a task, and shutdown. Each is a total function
//! here; the executable pool is proved to follow them.

use vstd::prelude::*;
use crate::task::TaskView;

verus! {

/// How the handler left a task.
#[derive(Clone, Copy, Debug, PartialEq, Eq, Structural)]
pub enum Outcome {
    /// The handler returned.
    Completed,
    /// The handler failed. The failure goes no further than the task.
    Failed,
}

/// Why the pool refused to be built or to take a task.
#[derive(Clone, Copy, Debug, PartialEq, Eq, Structural)]
pub enum PoolError {
    /// A pool needs at least one worker.
    ZeroWorkers,
    /// Shutdown has begun: the sending side of the queue is closed.
    Closed,
    /// The queue holds as many tasks as its limit allows.
    QueueFull,
}

/// What a worker is doing, as the running system sees it.
#[derive(Clone, Copy, Debug, PartialEq, Eq, Structural)]
pub enum WorkerState {
    /// Waiting on the queue.
    Idle,
    /// Running one task.
    Executing,
    /// Left its loop; ready to be joined.
    Stopped,
}

/// One started execution: which task, on which worker, and how it ended.
pub struct Execution {
    /// The task, by its position among the accepted tasks.
    pub task: nat,
    /// The worker, by its ordinal.
    pub worker: nat,
    /// `None` while the task is in flight.
    pub outcome: Option<Outcome>,
}

/// What a worker is doing, with the execution it is busy with.
pub enum WorkerView {
    Idle,
    /// Running the execution at this position of the log.
    Executing(nat),
    Stopped,
}

impl WorkerView {
    /// The state without the execution's position.
    pub open spec fn state(self) -> WorkerState {
        match self {
            WorkerView::Idle => WorkerState::Idle,
            WorkerView::Executing(_) => WorkerState::Executing,
            WorkerView::Stopped => WorkerState::Stopped,
        }
    }

    /// What a worker still has to do before it has stopped, in steps of its
    /// own: an idle worker must stop, a busy one must finish and then stop.
    pub open spec fn weight(self) -> nat {
        match self {
            WorkerView::Idle => 1,
            WorkerView::Executing(_) => 2,
            WorkerView::Stopped => 0,
        }
    }
}

/// The pool as plain values.
pub struct PoolView {
    /// Whether submissions are still taken. Shutdown clears it for good.
    pub accepting: bool,
    /// The most tasks that may wait in the queue at once.
    pub limit: nat,
    /// Every task ever accepted, in the order of acceptance.
    pub accepted: Seq<TaskView>,
    /// Every execution ever started, in the order of their start.
    pub executions: Seq<Execution>,
    /// What each worker is doing, by ordinal.
    pub workers: Seq<WorkerView>,
}

impl PoolView {
    /// The number of workers.
    pub open spec fn size(self) -> nat {
        self.workers.len()
    }

    /// The queue: accepted tasks that no worker has taken yet, oldest first.
    pub open spec fn pending(self) -> Seq<TaskView> {
        self.accepted.skip(self.executions.len() as int)
    }

    /// A new pool: every worker idle, nothing accepted, nothing started.
    pub open spec fn fresh(size: nat, limit: nat) -> PoolView {
        PoolView {
            accepting: true,
            limit,
            accepted: Seq::empty(),
            executions: Seq::empty(),
            workers: Seq::new(size, |w: int| WorkerView::Idle),
        }
    }

    /// The execution at position `k` runs task `k`, on a worker of this pool,
    /// and is in flight exactly while that worker is busy with it.
    pub open spec fn execution_ok(self, k: int) -> bool {
        let e = self.executions[k];
        &&& e.task == k
        &&& e.worker < self.workers.len()
        &&& (e.outcome is None <==> self.workers[e.worker as int] == WorkerView::Executing(
            k as nat,
        ))
    }

    /// A busy worker holds one execution of the log, which names it; a
    /// stopped worker has seen the queue closed and empty.
    pub open spec fn worker_ok(self, w: int) -> bool {
        match self.workers[w] {
            WorkerView::Idle => true,
            WorkerView::Executing(k) => {
                &&& k < self.executions.len()
                &&& self.executions[k as int].worker == w
            },
            WorkerView::Stopped => {
                &&& !self.accepting
                &&& self.executions.len() == self.accepted.len()
            },
        }
    }

    /// The invariant of every pool.
    pub open spec fn wf(self) -> bool {
        &&& self.workers.len() >= 1
        &&& self.executions.len() <= self.accepted.len()
        &&& self.accepted.len() - self.executions.len() <= self.limit
        &&& forall|k: int| 0 <= k < self.executions.len() ==> #[trigger] self.execution_ok(k)
        &&& forall|w: int| 0 <= w < self.workers.len() ==> #[trigger] self.worker_ok(w)
    }

    /// Why a submission would be refused now, if it would. A closed queue is
    /// reported before a full one.
    pub open spec fn refusal(self) -> Option<PoolError> {
        if !self.accepting {
            Some(PoolError::Closed)
        } else if self.pending().len() >= self.limit {
            Some(PoolError::QueueFull)
        } else {
            None
        }
    }

    /// A submission: the task joins the accepted ones, unless it is refused.
    pub open spec fn submit(self, task: TaskView) -> PoolView {
        if self.refusal() is None {
            PoolView { accepted: self.accepted.push(task), ..self }
        } else {
            self
        }
    }

    /// Whether `worker` is an idle worker of this pool.
    pub open spec fn is_idle(self, worker: nat) -> bool {
        worker < self.workers.len() && self.workers[worker as int] is Idle
    }

    /// Whether `worker` is a busy worker of this pool.
    pub open spec fn is_executing(self, worker: nat) -> bool {
        worker < self.workers.len() && self.workers[worker as int] is Executing
    }

    /// Whether `worker` is a stopped worker of this pool.
    pub open spec fn is_stopped(self, worker: nat) -> bool {
        worker < self.workers.len() && self.workers[worker as int] is Stopped
    }

    /// Whether a poll by `worker` takes a task: it is idle and one is pending.
    pub open spec fn takes(self, worker: nat) -> bool {
        self.is_idle(worker) && self.pending().len() > 0
    }

    /// Whether a poll by `worker` stops it: it is idle, and the queue is
    /// closed and empty.
    pub open spec fn retires(self, worker: nat) -> bool {
        self.is_idle(worker) && self.pending().len() == 0 && !self.accepting
    }

    /// A worker asks for work. An idle worker takes the oldest pending task;
    /// with none pending it stops if the queue is closed, and goes on waiting
    /// if it is not. Any other caller changes nothing.
    pub open spec fn poll(self, worker: nat) -> PoolView {
        if self.takes(worker) {
            let k = self.executions.len();
            PoolView {
                executions: self.executions.push(Execution { task: k, worker, outcome: None }),
                workers: self.workers.update(worker as int, WorkerView::Executing(k)),
                ..self
            }
        } else if self.retires(worker) {
            PoolView { workers: self.workers.update(worker as int, WorkerView::Stopped), ..self }
        } else {
            self
        }
    }

    /// A worker reports the end of its task, and is idle again whatever the
    /// outcome. A caller that is not a busy worker changes nothing.
    pub open spec fn finish(self, worker: nat, outcome: Outcome) -> PoolView {
        if self.is_executing(worker) {
            let k = self.workers[worker as int]->Executing_0;
            PoolView {
                executions: self.executions.update(
                    k as int,
                    Execution { outcome: Some(outcome), ..self.executions[k as int] },
                ),
                workers: self.workers.update(worker as int, WorkerView::Idle),
                ..self
            }
        } else {
            self
        }
    }

    /// Shutdown begins: the sending side of the queue is closed. What is
    /// pending stays pending.
    pub open spec fn shut(self) -> PoolView {
        PoolView { accepting: false, ..self }
    }

    /// Whether every worker has stopped, so that teardown may return.
    pub open spec fn all_stopped(self) -> bool {
        forall|w: int| 0 <= w < self.workers.len() ==> #[trigger] self.workers[w] is Stopped
    }

    /// The positions in the log of the executions that ran task `task`.
    pub open spec fn runs_of(self, task: nat) -> Set<int> {
        Set::new(|k: int| 0 <= k < self.executions.len() && self.executions[k].task == task)
    }

    /// Whether task `task` has been run to its end.
    pub open spec fn is_done(self, task: nat) -> bool {
        &&& task < self.executions.len()
        &&& self.executions[task as int].outcome is Some
    }

    /// A new pool with at least one worker is well formed.
    pub proof fn lemma_fresh_wf(size: nat, limit: nat)
        requires
            size >= 1,
        ensures
            Self::fresh(size, limit).wf(),
            Self::fresh(size, limit).size() == size,
            Self::fresh(size, limit).pending() =~= Seq::<TaskView>::empty(),
    {
        let v = Self::fresh(size, limit);
        assert forall|w: int| 0 <= w < v.workers.len() implies #[trigger] v.worker_ok(w) by {}
    }

    /// A submission keeps the pool well formed.
    pub proof fn lemma_submit_wf(self, task: TaskView)
        requires
            self.wf(),
        ensures
            self.submit(task).wf(),
    {
        let n = self.submit(task);
        if self.refusal() is None {
            assert forall|k: int| 0 <= k < n.executions.len() implies #[trigger] n.execution_ok(
                k,
            ) by {
                assert(self.execution_ok(k));
            }
            assert forall|w: int| 0 <= w < n.workers.len() implies #[trigger] n.worker_ok(w) by {
                assert(self.worker_ok(w));
            }
        }
    }

    /// A poll keeps the pool well formed.
    pub proof fn lemma_poll_wf(self, worker: nat)
        requires
            self.wf(),
        ensures
            self.poll(worker).wf(),
    {
        let n = self.poll(worker);
        if self.takes(worker) || self.retires(worker) {
            assert forall|k: int| 0 <= k < n.executions.len() implies #[trigger] n.execution_ok(
                k,
            ) by {
                if k < self.executions.len() {
                    assert(self.execution_ok(k));
                }
            }
            assert forall|w: int| 0 <= w < n.workers.len() implies #[trigger] n.worker_ok(w) by {
                assert(self.worker_ok(w));
            }
        }
    }

    /// The end of a task keeps the pool well formed.
    pub proof fn lemma_finish_wf(self, worker: nat, outcome: Outcome)
        requires
            self.wf(),
        ensures
            self.finish(worker, outcome).wf(),
    {
        let n = self.finish(worker, outcome);
        if self.is_executing(worker) {
            assert(self.worker_ok(worker as int));
            assert forall|k: int| 0 <= k < n.executions.len() implies #[trigger] n.execution_ok(
                k,
            ) by {
                assert(self.execution_ok(k));
            }
            assert forall|w: int| 0 <= w < n.workers.len() implies #[trigger] n.worker_ok(w) by {
                assert(self.worker_ok(w));
            }
        }
    }

    /// Shutdown keeps the pool well formed.
    pub proof fn lemma_shut_wf(self)
        requires
            self.wf(),
        ensures
            self.shut().wf(),
    {
        let n = self.shut();
        assert forall|k: int| 0 <= k < n.executions.len() implies #[trigger] n.execution_ok(k) by {
            assert(self.execution_ok(k));
        }
        assert forall|w: int| 0 <= w < n.workers.len() implies #[trigger] n.worker_ok(w) by {
            assert(self.worker_ok(w));
        }
    }
}

} // verus!
