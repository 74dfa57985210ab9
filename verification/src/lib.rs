//! Dispatcher core of a sensor gateway.
//!
//! Field sensors send datagrams. A receive loop copies each one into a task
//! and submits it to a pool with a fixed number of workers, so that a slow
//! handler never holds up reception. This crate is what the loop and the pool
//! decide; sockets and threads belong to the program around it.
//!
//! - `task`: a datagram's payload and sender, held by value.
//! - `model`: the pool as a mathematical object, and its transitions.
//! - `pool`: the executable pool, proved to follow the model.
//! - `ingest`: what the receive loop does with each datagram or fault.
//! - `laws`: what holds of every history of a pool.

use vstd::prelude::*;

pub mod ingest;
pub mod laws;
pub mod model;
pub mod pool;
pub mod task;

pub use crate::pool::ThreadPool;

verus! {

/// The built-in sensor handler. It accepts a reading and does nothing with it.
pub fn handle_connection() {
}

} // verus!
