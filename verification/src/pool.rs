//! The worker pool: a fixed set of workers behind one queue of tasks.
//!
//! The pool here is the bookkeeping of a thread pool, without the threads.
//! Whoever owns the threads keeps one `ThreadPool` behind a lock. A submitter
//! calls `execute`; a worker thread calls `poll`, runs the task it is handed
//! outside the lock, and calls `finish`; teardown calls `shutdown` and joins
//! each thread once `poll` has told it to stop.
//!
//! The queue is bounded and fails fast: a submission that finds it full is
//! refused with `PoolError::QueueFull` and the caller counts the datagram as
//! dropped. `ThreadPool::new` sets the bound to the largest length a queue
//! can have on this machine.

use vstd::prelude::*;
use std::collections::VecDeque;
use crate::model::Outcome;
use crate::model::PoolError;
use crate::model::PoolView;
use crate::model::WorkerState;
use crate::task::Task;

verus! {

/// What a worker that asked for work is to do next.
#[derive(Debug)]
pub enum Dispatch {
    /// Run the task, then report its end.
    Run(Task),
    /// Nothing is pending: wait until a task is submitted or shutdown begins.
    Wait,
    /// Leave the loop: this worker has stopped, or is none of the pool's.
    Stop,
}

/// A fixed number of workers and the queue they share.
pub struct ThreadPool {
    workers: Vec<WorkerState>,
    queue: VecDeque<Task>,
    limit: usize,
    accepting: bool,
    model: Ghost<PoolView>,
}

impl View for ThreadPool {
    type V = PoolView;

    closed spec fn view(&self) -> PoolView {
        self.model@
    }
}

impl ThreadPool {
    /// The pool's fields agree with its view, and the view is well formed.
    pub closed spec fn wf(&self) -> bool {
        &&& self.model@.wf()
        &&& self.accepting == self.model@.accepting
        &&& self.limit == self.model@.limit
        &&& self.workers@.len() == self.model@.workers.len()
        &&& forall|w: int|
            0 <= w < self.workers@.len() ==> #[trigger] self.workers@[w]
                == self.model@.workers[w].state()
        &&& self.queue@.len() == self.model@.pending().len()
        &&& forall|i: int|
            0 <= i < self.queue@.len() ==> (#[trigger] self.queue@[i])@
                == self.model@.pending()[i]
    }

    /// A well-formed pool has a well-formed view, so that what is proved of
    /// every well-formed view holds of every pool.
    pub proof fn lemma_view_wf(&self)
        requires
            self.wf(),
        ensures
            self@.wf(),
    {
    }

    /// A pool of `size` workers whose queue is bounded only by the machine.
    /// A pool without workers would take tasks and never run them, so none
    /// is built.
    pub fn new(size: usize) -> (pool: Result<ThreadPool, PoolError>)
        ensures
            size == 0 <==> pool is Err,
            pool is Err ==> pool->Err_0 == PoolError::ZeroWorkers,
            pool is Ok ==> pool->Ok_0.wf() && pool->Ok_0@ == PoolView::fresh(
                size as nat,
                usize::MAX as nat,
            ),
    {
        Self::with_queue_limit(size, usize::MAX)
    }

    /// A pool of `size` workers whose queue holds at most `limit` tasks.
    pub fn with_queue_limit(size: usize, limit: usize) -> (pool: Result<ThreadPool, PoolError>)
        ensures
            size == 0 <==> pool is Err,
            pool is Err ==> pool->Err_0 == PoolError::ZeroWorkers,
            pool is Ok ==> pool->Ok_0.wf() && pool->Ok_0@ == PoolView::fresh(
                size as nat,
                limit as nat,
            ),
    {
        if size == 0 {
            return Err(PoolError::ZeroWorkers);
        }
        let mut workers: Vec<WorkerState> = Vec::with_capacity(size);
        let mut w: usize = 0;
        while w < size
            invariant
                w <= size,
                workers@.len() == w,
                forall|i: int| 0 <= i < w ==> #[trigger] workers@[i] == WorkerState::Idle,
            decreases size - w,
        {
            workers.push(WorkerState::Idle);
            w += 1;
        }
        let ghost model = PoolView::fresh(size as nat, limit as nat);
        proof {
            PoolView::lemma_fresh_wf(size as nat, limit as nat);
        }
        Ok(ThreadPool { workers, queue: VecDeque::new(), limit, accepting: true, model: Ghost(model) })
    }

    /// Enqueues `task` for some worker and returns at once. The task is
    /// refused, and lost to the caller, once shutdown has begun or while the
    /// queue is full.
    pub fn execute(&mut self, task: Task) -> (sent: Result<(), PoolError>)
        requires
            old(self).wf(),
        ensures
            final(self).wf(),
            final(self)@ == old(self)@.submit(task@),
            match sent {
                Ok(_) => old(self)@.refusal() is None,
                Err(e) => old(self)@.refusal() == Some(e),
            },
    {
        if !self.accepting {
            return Err(PoolError::Closed);
        }
        if self.queue.len() >= self.limit {
            return Err(PoolError::QueueFull);
        }
        proof {
            self.model@.lemma_submit_wf(task@);
        }
        let ghost before = self.model@;
        let ghost waiting = self.queue@;
        self.model = Ghost(before.submit(task@));
        self.queue.push_back(task);
        proof {
            let after = self.model@;
            assert(after.pending() =~= before.pending().push(task@));
            assert forall|i: int| 0 <= i < self.queue@.len() implies (#[trigger] self.queue@[i])@
                == after.pending()[i] by {
                if i < waiting.len() {
                    assert(self.queue@[i] == waiting[i]);
                }
            }
        }
        Ok(())
    }

    /// The worker `worker` asks for work. An idle worker is handed the oldest
    /// pending task, whatever the other workers are doing. With none pending
    /// it is told to wait while the queue is open, and to stop once it is
    /// closed. A busy worker is told to wait, and the pool is left as it was.
    pub fn poll(&mut self, worker: usize) -> (next: Dispatch)
        requires
            old(self).wf(),
        ensures
            final(self).wf(),
            final(self)@ == old(self)@.poll(worker as nat),
            match next {
                Dispatch::Run(task) => {
                    &&& old(self)@.takes(worker as nat)
                    &&& task@ == old(self)@.pending()[0]
                },
                Dispatch::Wait => {
                    &&& worker < old(self)@.size()
                    &&& !old(self)@.takes(worker as nat)
                    &&& !old(self)@.retires(worker as nat)
                    &&& !old(self)@.is_stopped(worker as nat)
                },
                Dispatch::Stop => {
                    ||| worker >= old(self)@.size()
                    ||| old(self)@.is_stopped(worker as nat)
                    ||| old(self)@.retires(worker as nat)
                },
            },
    {
        if worker >= self.workers.len() {
            return Dispatch::Stop;
        }
        match self.workers[worker] {
            WorkerState::Stopped => Dispatch::Stop,
            WorkerState::Executing => Dispatch::Wait,
            WorkerState::Idle => {
                let ghost before = self.model@;
                let ghost waiting = self.queue@;
                proof {
                    before.lemma_poll_wf(worker as nat);
                }
                match self.queue.pop_front() {
                    Some(task) => {
                        self.workers[worker] = WorkerState::Executing;
                        self.model = Ghost(before.poll(worker as nat));
                        proof {
                            let after = self.model@;
                            assert(after.pending() =~= before.pending().skip(1));
                            assert forall|i: int| 0 <= i < self.queue@.len() implies (
                            #[trigger] self.queue@[i])@ == after.pending()[i] by {
                                assert(self.queue@[i] == waiting[i + 1]);
                            }
                        }
                        Dispatch::Run(task)
                    },
                    None => {
                        if self.accepting {
                            Dispatch::Wait
                        } else {
                            self.workers[worker] = WorkerState::Stopped;
                            self.model = Ghost(before.poll(worker as nat));
                            proof {
                                assert(self.model@.pending() =~= before.pending());
                            }
                            Dispatch::Stop
                        }
                    },
                }
            },
        }
    }

    /// The worker `worker` reports that its task has ended, and is idle
    /// again, whether the handler returned or failed. Says whether there was
    /// a task to end; if not, the pool is left as it was.
    pub fn finish(&mut self, worker: usize, outcome: Outcome) -> (ended: bool)
        requires
            old(self).wf(),
        ensures
            final(self).wf(),
            final(self)@ == old(self)@.finish(worker as nat, outcome),
            ended == old(self)@.is_executing(worker as nat),
    {
        if worker >= self.workers.len() {
            return false;
        }
        match self.workers[worker] {
            WorkerState::Executing => {
                let ghost before = self.model@;
                proof {
                    before.lemma_finish_wf(worker as nat, outcome);
                    assert(before.worker_ok(worker as int));
                }
                self.workers[worker] = WorkerState::Idle;
                self.model = Ghost(before.finish(worker as nat, outcome));
                proof {
                    assert(self.model@.pending() =~= before.pending());
                }
                true
            },
            _ => false,
        }
    }

    /// Begins shutdown: closes the sending side of the queue. Tasks that are
    /// pending stay in the queue for the workers to drain.
    pub fn shutdown(&mut self)
        requires
            old(self).wf(),
        ensures
            final(self).wf(),
            final(self)@ == old(self)@.shut(),
    {
        proof {
            self.model@.lemma_shut_wf();
        }
        let ghost before = self.model@;
        self.accepting = false;
        self.model = Ghost(before.shut());
        proof {
            assert(self.model@.pending() =~= before.pending());
        }
    }

    /// Whether every worker has stopped, so that teardown may return.
    pub fn is_terminated(&self) -> (done: bool)
        requires
            self.wf(),
        ensures
            done == self@.all_stopped(),
    {
        let mut w: usize = 0;
        while w < self.workers.len()
            invariant
                self.wf(),
                w <= self.workers@.len(),
                forall|i: int| 0 <= i < w ==> #[trigger] self.model@.workers[i] is Stopped,
            decreases self.workers@.len() - w,
        {
            match self.workers[w] {
                WorkerState::Stopped => {},
                _ => {
                    assert(!(self.model@.workers[w as int] is Stopped));
                    return false;
                },
            }
            assert(self.workers@[w as int] == self.model@.workers[w as int].state());
            w += 1;
        }
        true
    }

    /// The number of workers, fixed when the pool was built.
    pub fn size(&self) -> (n: usize)
        requires
            self.wf(),
        ensures
            n == self@.size(),
    {
        self.workers.len()
    }

    /// The most tasks that may wait in the queue at once.
    pub fn queue_limit(&self) -> (n: usize)
        requires
            self.wf(),
        ensures
            n == self@.limit,
    {
        self.limit
    }

    /// The number of tasks waiting in the queue.
    pub fn queue_depth(&self) -> (n: usize)
        requires
            self.wf(),
        ensures
            n == self@.pending().len(),
    {
        self.queue.len()
    }

    /// Whether the pool still takes submissions.
    pub fn is_accepting(&self) -> (yes: bool)
        requires
            self.wf(),
        ensures
            yes == self@.accepting,
    {
        self.accepting
    }

    /// What the worker `worker` is doing; `None` if the pool has no such
    /// worker.
    pub fn worker_state(&self, worker: usize) -> (state: Option<WorkerState>)
        requires
            self.wf(),
        ensures
            worker < self@.size() ==> state == Some(self@.workers[worker as int].state()),
            worker >= self@.size() ==> state is None,
    {
        if worker < self.workers.len() {
            Some(self.workers[worker])
        } else {
            None
        }
    }
}

} // verus!
