//! Tasks: one received datagram each, held by value.
//!
//! The receive buffer is reused from one datagram to the next, so a task never
//! borrows from it. A task owns a copy of the bytes that were received and the
//! address they came from.

use vstd::prelude::*;

verus! {

/// Where a datagram came from: the sender's address and port, as integers.
#[derive(Clone, Copy, Debug, PartialEq, Eq, Structural)]
#[allow(inconsistent_fields)]
pub enum SourceAddr {
    /// An IPv4 sender: the address as its 32 bits, most significant octet first.
    V4 { addr: u32, port: u16 },
    /// An IPv6 sender: the address as its 128 bits, with flow label and scope.
    V6 { addr: u128, port: u16, flowinfo: u32, scope_id: u32 },
}

/// One unit of deferred work: the payload of one datagram and its sender.
#[derive(Debug)]
pub struct Task {
    pub payload: Vec<u8>,
    pub source: SourceAddr,
}

/// What a task is, as plain values.
pub struct TaskView {
    pub payload: Seq<u8>,
    pub source: SourceAddr,
}

impl View for Task {
    type V = TaskView;

    open spec fn view(&self) -> TaskView {
        TaskView { payload: self.payload@, source: self.source }
    }
}

impl Task {
    /// A task that owns `payload`.
    pub fn new(payload: Vec<u8>, source: SourceAddr) -> (task: Task)
        ensures
            task@ == (TaskView { payload: payload@, source }),
    {
        Task { payload, source }
    }

    /// Copies the first `len` bytes of the receive buffer into a task of their
    /// own. A length that the buffer cannot hold gives no task.
    pub fn copy_from(buf: &[u8], len: usize, source: SourceAddr) -> (task: Option<Task>)
        ensures
            len <= buf@.len() ==> task is Some && task->0@ == (TaskView {
                payload: buf@.take(len as int),
                source,
            }),
            len > buf@.len() ==> task is None,
    {
        if len > buf.len() {
            return None;
        }
        let mut payload: Vec<u8> = Vec::with_capacity(len);
        let mut i: usize = 0;
        while i < len
            invariant
                i <= len <= buf@.len(),
                payload@ == buf@.take(i as int),
            decreases len - i,
        {
            payload.push(buf[i]);
            i += 1;
            assert(payload@ =~= buf@.take(i as int));
        }
        Some(Task { payload, source })
    }

    /// The number of bytes that were received.
    pub fn len(&self) -> (n: usize)
        ensures
            n == self@.payload.len(),
    {
        self.payload.len()
    }

    /// Whether no byte was received.
    pub fn is_empty(&self) -> (empty: bool)
        ensures
            empty == (self@.payload.len() == 0),
    {
        self.payload.len() == 0
    }

    /// Whether the payload filled a receive buffer of `capacity` bytes. A
    /// datagram longer than the buffer is cut to the buffer's length, so one
    /// that fills it may have lost its tail.
    pub fn fills(&self, capacity: usize) -> (full: bool)
        ensures
            full == (self@.payload.len() >= capacity),
    {
        self.payload.len() >= capacity
    }

    /// Gives up the task for its parts.
    pub fn into_parts(self) -> (parts: (Vec<u8>, SourceAddr))
        ensures
            parts.0@ == self@.payload,
            parts.1 == self@.source,
    {
        (self.payload, self.source)
    }
}

} // verus!
