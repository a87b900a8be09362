//! Workers: the record the pool keeps of each worker thread, and the
//! life cycle that the thread itself runs through.

use crate::error::{os_error_text, PoolCreationError};
use crate::queue::{Dequeued, JobQueue};
use vstd::prelude::*;

verus! {

/// Where a worker stands in its receive-and-run loop.
#[derive(Debug, Clone, Copy, PartialEq, Eq, Structural)]
pub enum WorkerState {
    /// Waiting for the queue to hand out a job or to report its closure.
    Idle,
    /// Running a job it received.
    Executing,
    /// Out of the loop for good.
    Terminated,
}

impl WorkerState {
    /// The state an idle worker moves to on what the queue gave it: it runs
    /// a job, keeps waiting on an empty queue, and leaves on closure.
    pub open spec fn after<J>(outcome: Dequeued<J>) -> WorkerState {
        match outcome {
            Dequeued::Job(_) => WorkerState::Executing,
            Dequeued::Empty => WorkerState::Idle,
            Dequeued::Closed => WorkerState::Terminated,
        }
    }

    /// One turn of an idle worker: asks `queue` for a job and moves on
    /// accordingly. The caller hands the job it gets to
    /// [`WorkerState::run`]; on `Empty` it waits and asks again; on `Closed`
    /// it lets the thread end.
    ///
    /// The turn needs the queue to itself, so no two workers take the same
    /// job: whoever shares a queue among threads puts it behind a lock.
    pub fn receive<J>(&mut self, queue: &mut JobQueue<J>) -> (outcome: Dequeued<J>)
        requires
            *old(self) is Idle,
        ensures
            outcome == old(queue)@.front(),
            final(queue)@ == old(queue)@.dequeue(),
            *final(self) == WorkerState::after(outcome),
    {
        let outcome = queue.dequeue();
        match &outcome {
            Dequeued::Job(_) => {
                *self = WorkerState::Executing;
            },
            Dequeued::Empty => {},
            Dequeued::Closed => {
                *self = WorkerState::Terminated;
            },
        }
        outcome
    }

    /// Runs `job`, the job in hand, on the calling thread. The worker is
    /// idle again only when the job has returned: it does not look at the
    /// queue, and so cannot learn of a closure, in the middle of a job.
    ///
    /// A job that does not return keeps its worker: the worker stays
    /// `Executing` and takes no further job, and the pool does not replace
    /// it.
    pub fn run<J>(&mut self, job: J) where J: FnOnce() -> ()
        requires
            *old(self) is Executing,
            call_requires(job, ()),
        ensures
            call_ensures(job, (), ()),
            *final(self) is Idle,
    {
        job();
        *self = WorkerState::Idle;
    }
}

/// The abstract content of a [`Worker`].
pub struct WorkerView<H> {
    /// The worker's number, used to tell workers apart in diagnostics.
    pub id: usize,
    /// The handle of the worker's thread, until it is taken out to be joined.
    pub thread: Option<H>,
}

/// What the pool keeps of one worker: its number and the handle of its
/// thread. The handle can be taken out once and never put back, so a thread
/// cannot be joined twice.
pub struct Worker<H> {
    id: usize,
    thread: Option<H>,
}

impl<H> View for Worker<H> {
    type V = WorkerView<H>;

    closed spec fn view(&self) -> WorkerView<H> {
        WorkerView { id: self.id, thread: self.thread }
    }
}

impl<H> Worker<H> {
    /// Makes the record of worker `id` from the outcome of starting its
    /// thread: the handle on success, a description of the failure
    /// otherwise. A failure becomes [`PoolCreationError::OsError`].
    pub fn new(id: usize, spawned: Result<H, String>) -> (r: Result<Worker<H>, PoolCreationError>)
        ensures
            match spawned {
                Ok(handle) => r matches Ok(worker) && worker@ == (WorkerView {
                    id,
                    thread: Some(handle),
                }),
                Err(cause) => r matches Err(PoolCreationError::OsError(message)) && message@
                    == os_error_text(cause@),
            },
    {
        match spawned {
            Ok(handle) => Ok(Worker { id, thread: Some(handle) }),
            Err(cause) => Err(PoolCreationError::os_error(cause.as_str())),
        }
    }

    /// The worker's number.
    pub fn id(&self) -> (id: usize)
        ensures
            id == self@.id,
    {
        self.id
    }

    /// Takes the thread's handle out, leaving the slot empty. A second call
    /// finds nothing.
    pub fn take_thread(&mut self) -> (handle: Option<H>)
        ensures
            handle == old(self)@.thread,
            final(self)@ == (WorkerView::<H> { id: old(self)@.id, thread: None }),
    {
        self.thread.take()
    }
}

} // verus!
