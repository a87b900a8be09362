//! The verified core of a fixed-size worker pool.
//!
//! A pool owns a fixed set of long-lived worker threads and the one producer
//! handle to the job queue they share. Jobs are submitted through the pool,
//! queued first-in, first-out, and each is taken and run by one worker.
//! Teardown closes the queue, lets the workers drain it, and joins every
//! thread once.
//!
//! This crate holds what of that is decided and computed: the queue
//! ([`JobQueue`]), a worker's life cycle ([`WorkerState`]), the pool's
//! bookkeeping from construction to teardown ([`ThreadPool`]), and, in
//! [`model`], the laws of the whole at work. Starting, blocking and joining
//! threads is left to the caller, who passes the pool the operations it
//! needs and receives from it the handles to release.

pub mod error;
pub mod model;
pub mod pool;
pub mod queue;
pub mod worker;

pub use error::PoolCreationError;
pub use pool::{PoolPhase, PoolView, ThreadPool};
pub use queue::{Dequeued, JobQueue, QueueState};
pub use worker::{Worker, WorkerState, WorkerView};
