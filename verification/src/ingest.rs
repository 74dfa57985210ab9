//! The ingestion loop's decisions.
//!
//! The loop itself waits on a socket, which is not done here. After each
//! receive it hands what came back to `Ingestion::on_receive`, together with
//! its buffer and the pool. That function never runs a handler and never
//! waits for a worker: it copies the payload out of the buffer, submits the
//! copy, and says what became of the datagram. A fault that concerns one
//! datagram is counted and the loop goes on; a fault of the socket halts it.

use vstd::prelude::*;
use crate::model::PoolError;
use crate::model::PoolView;
use crate::pool::ThreadPool;
use crate::task::SourceAddr;
use crate::task::Task;
use crate::task::TaskView;

verus! {

/// What can go wrong with a receive.
#[derive(Clone, Copy, Debug, PartialEq, Eq, Structural)]
pub enum ReceiveFault {
    /// What arrived cannot be read as a datagram.
    Malformed,
    /// The read ended short of a datagram.
    Truncated,
    /// The wait ended before a datagram arrived.
    Interrupted,
    /// The socket is closed.
    SocketClosed,
    /// The system reported a failure that a new receive will not cure.
    Unrecoverable,
}

impl ReceiveFault {
    /// A transient fault concerns one datagram only. Every other fault is
    /// fatal to the loop.
    pub open spec fn is_transient(self) -> bool {
        ||| self == ReceiveFault::Malformed
        ||| self == ReceiveFault::Truncated
        ||| self == ReceiveFault::Interrupted
    }

    /// Whether the loop survives this fault.
    pub fn transient(&self) -> (yes: bool)
        ensures
            yes == self.is_transient(),
    {
        match self {
            ReceiveFault::Malformed => true,
            ReceiveFault::Truncated => true,
            ReceiveFault::Interrupted => true,
            ReceiveFault::SocketClosed => false,
            ReceiveFault::Unrecoverable => false,
        }
    }
}

/// What one receive came back with.
#[derive(Clone, Copy, Debug, PartialEq, Eq, Structural)]
pub enum Received {
    /// A datagram: its first `len` bytes are in the buffer.
    Datagram { len: usize, source: SourceAddr },
    /// No datagram.
    Fault(ReceiveFault),
}

/// What became of one receive.
#[derive(Clone, Copy, Debug, PartialEq, Eq, Structural)]
pub enum Verdict {
    /// The datagram is in the queue.
    Submitted,
    /// The pool refused the datagram; it is lost.
    Dropped(PoolError),
    /// There was no usable datagram; the loop goes on.
    Skipped(ReceiveFault),
    /// The loop has ended, on this fault.
    Halted(ReceiveFault),
}

/// One more, up to the largest value a counter holds.
pub open spec fn bump(n: u64) -> u64 {
    if n < u64::MAX {
        (n + 1) as u64
    } else {
        n
    }
}

/// The loop's own state: whether it has halted, and what it has counted.
#[derive(Clone, Copy, Debug, PartialEq, Eq, Structural)]
pub struct Ingestion {
    /// The fault that ended the loop, once one has.
    pub halted: Option<ReceiveFault>,
    /// Datagrams handed to the pool.
    pub submitted: u64,
    /// Datagrams that the pool refused.
    pub dropped: u64,
    /// Receives that brought no usable datagram.
    pub skipped: u64,
}

impl Ingestion {
    /// The task that a datagram of `len` bytes from `source` becomes.
    pub open spec fn task_of(buf: Seq<u8>, len: usize, source: SourceAddr) -> TaskView {
        TaskView { payload: buf.take(len as int), source }
    }

    /// What becomes of a receive, given the buffer and the pool as they are.
    /// A length that the buffer cannot hold marks a malformed datagram.
    pub open spec fn verdict(self, pool: PoolView, buf: Seq<u8>, event: Received) -> Verdict {
        match self.halted {
            Some(fault) => Verdict::Halted(fault),
            None => match event {
                Received::Fault(fault) => if fault.is_transient() {
                    Verdict::Skipped(fault)
                } else {
                    Verdict::Halted(fault)
                },
                Received::Datagram { len, source } => if len > buf.len() {
                    Verdict::Skipped(ReceiveFault::Malformed)
                } else {
                    match pool.refusal() {
                        None => Verdict::Submitted,
                        Some(e) => Verdict::Dropped(e),
                    }
                },
            },
        }
    }

    /// The loop's state once a receive has met `verdict`.
    pub open spec fn after(self, verdict: Verdict) -> Ingestion {
        match verdict {
            Verdict::Submitted => Ingestion { submitted: bump(self.submitted), ..self },
            Verdict::Dropped(_) => Ingestion { dropped: bump(self.dropped), ..self },
            Verdict::Skipped(_) => Ingestion { skipped: bump(self.skipped), ..self },
            Verdict::Halted(fault) => Ingestion { halted: Some(fault), ..self },
        }
    }

    /// The pool once the receive has been dealt with: a datagram that the
    /// buffer holds is submitted while the loop runs, and nothing else
    /// touches the pool.
    pub open spec fn pool_after(self, pool: PoolView, buf: Seq<u8>, event: Received) -> PoolView {
        match event {
            Received::Datagram { len, source } => if self.halted is None && len <= buf.len() {
                pool.submit(Self::task_of(buf, len, source))
            } else {
                pool
            },
            Received::Fault(_) => pool,
        }
    }

    /// A loop that has not started: running, all counters at zero.
    pub fn new() -> (state: Ingestion)
        ensures
            state == (Ingestion { halted: None, submitted: 0, dropped: 0, skipped: 0 }),
    {
        Ingestion { halted: None, submitted: 0, dropped: 0, skipped: 0 }
    }

    /// Whether the loop is to receive again.
    pub fn is_running(&self) -> (yes: bool)
        ensures
            yes == (self.halted is None),
    {
        self.halted.is_none()
    }

    /// Deals with one receive. A datagram is copied out of `buf` and
    /// submitted to `pool`; a refusal by the pool is counted as a dropped
    /// datagram and does not end the loop. A transient fault is counted and
    /// skipped. A fatal fault halts the loop, and a halted loop answers every
    /// later call with the fault that halted it.
    pub fn on_receive(&mut self, pool: &mut ThreadPool, buf: &[u8], event: Received) -> (verdict:
        Verdict)
        requires
            old(pool).wf(),
        ensures
            final(pool).wf(),
            verdict == old(self).verdict(old(pool)@, buf@, event),
            *final(self) == old(self).after(verdict),
            final(pool)@ == old(self).pool_after(old(pool)@, buf@, event),
    {
        if let Some(fault) = self.halted {
            return Verdict::Halted(fault);
        }
        match event {
            Received::Fault(fault) => {
                if fault.transient() {
                    self.skipped = Self::count(self.skipped);
                    Verdict::Skipped(fault)
                } else {
                    self.halted = Some(fault);
                    Verdict::Halted(fault)
                }
            },
            Received::Datagram { len, source } => {
                match Task::copy_from(buf, len, source) {
                    None => {
                        self.skipped = Self::count(self.skipped);
                        Verdict::Skipped(ReceiveFault::Malformed)
                    },
                    Some(task) => {
                        match pool.execute(task) {
                            Ok(_) => {
                                self.submitted = Self::count(self.submitted);
                                Verdict::Submitted
                            },
                            Err(e) => {
                                self.dropped = Self::count(self.dropped);
                                Verdict::Dropped(e)
                            },
                        }
                    },
                }
            },
        }
    }

    fn count(n: u64) -> (m: u64)
        ensures
            m == bump(n),
    {
        if n < u64::MAX {
            n + 1
        } else {
            n
        }
    }

    /// Whether a receive brought no datagram that can be used, without the
    /// socket being at fault: a transient fault, or a length that the buffer
    /// cannot hold.
    pub open spec fn is_unusable(buf: Seq<u8>, event: Received) -> bool {
        match event {
            Received::Fault(fault) => fault.is_transient(),
            Received::Datagram { len, source } => len > buf.len(),
        }
    }

    /// Whether a receive brought a fault of the socket itself.
    pub open spec fn is_fatal(event: Received) -> bool {
        match event {
            Received::Fault(fault) => !fault.is_transient(),
            Received::Datagram { len, source } => false,
        }
    }

    /// Nothing halts a running loop but a fault of the socket: not a
    /// malformed or truncated datagram, not an interrupted wait, and not a
    /// refusal by the pool.
    pub proof fn lemma_only_fatal_faults_halt(
        self,
        pool: PoolView,
        buf: Seq<u8>,
        event: Received,
    )
        requires
            self.halted is None,
        ensures
            self.after(self.verdict(pool, buf, event)).halted is Some <==> Self::is_fatal(event),
            Self::is_fatal(event) ==> self.pool_after(pool, buf, event) == pool,
    {
    }

    /// A halted loop stays halted on the same fault, and touches neither its
    /// counters nor the pool.
    pub proof fn lemma_halted_loop_stays_halted(
        self,
        pool: PoolView,
        buf: Seq<u8>,
        event: Received,
    )
        requires
            self.halted is Some,
        ensures
            self.verdict(pool, buf, event) == Verdict::Halted(self.halted->0),
            self.after(self.verdict(pool, buf, event)) == self,
            self.pool_after(pool, buf, event) == pool,
    {
    }

    /// A bad datagram does not stop ingestion: after a receive that brought
    /// nothing usable the loop still runs and the pool is as it was, so the
    /// datagram that follows meets the verdict, and has the effect on the
    /// pool, that it would have had if the bad one had never arrived. If the
    /// pool has room for it, it is queued.
    pub proof fn lemma_bad_datagram_does_not_stop_ingestion(
        self,
        pool: PoolView,
        bad_buf: Seq<u8>,
        bad: Received,
        buf: Seq<u8>,
        len: usize,
        source: SourceAddr,
    )
        requires
            self.halted is None,
            Self::is_unusable(bad_buf, bad),
            len <= buf.len(),
        ensures
            ({
                let skipped = self.verdict(pool, bad_buf, bad);
                let state = self.after(skipped);
                let good = Received::Datagram { len, source };
                &&& skipped is Skipped
                &&& state.halted is None
                &&& self.pool_after(pool, bad_buf, bad) == pool
                &&& state.verdict(pool, buf, good) == self.verdict(pool, buf, good)
                &&& state.pool_after(pool, buf, good) == pool.submit(Self::task_of(buf, len, source))
                &&& pool.refusal() is None ==> {
                    &&& state.verdict(pool, buf, good) == Verdict::Submitted
                    &&& state.pool_after(pool, buf, good).accepted == pool.accepted.push(
                        Self::task_of(buf, len, source),
                    )
                }
            }),
    {
    }
}

} // verus!
