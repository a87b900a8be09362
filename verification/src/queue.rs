//! The job queue: an unbounded first-in, first-out hand-over of jobs from
//! submitters to workers, which can be closed once.
//!
//! The queue itself never blocks. Where a blocking receive would have to
//! wait, [`JobQueue::dequeue`] answers [`Dequeued::Empty`] and leaves the
//! waiting to the caller.

use std::collections::VecDeque;
use vstd::prelude::*;

verus! {

/// What a consumer gets when it asks the queue for a job.
pub enum Dequeued<J> {
    /// The oldest pending job, now owned by the consumer.
    Job(J),
    /// Nothing is pending and the queue is still open: more may come.
    Empty,
    /// Nothing is pending and the queue is closed: nothing will come.
    Closed,
}

/// The abstract state of a job queue.
pub struct QueueState<J> {
    /// The jobs accepted and not yet handed out, oldest first.
    pub pending: Seq<J>,
    /// Whether the producer side has been closed.
    pub closed: bool,
}

impl<J> QueueState<J> {
    /// An open queue with nothing pending.
    pub open spec fn fresh() -> Self {
        QueueState { pending: Seq::empty(), closed: false }
    }

    /// The queue after a producer offers `job`: appended while the queue is
    /// open, refused once it is closed.
    pub open spec fn enqueue(self, job: J) -> Self {
        if self.closed {
            self
        } else {
            QueueState { pending: self.pending.push(job), closed: false }
        }
    }

    /// What a consumer that asks now receives.
    pub open spec fn front(self) -> Dequeued<J> {
        if self.pending.len() > 0 {
            Dequeued::Job(self.pending[0])
        } else if self.closed {
            Dequeued::Closed
        } else {
            Dequeued::Empty
        }
    }

    /// The queue after a consumer has asked: without its oldest job, if it
    /// had one.
    pub open spec fn dequeue(self) -> Self {
        if self.pending.len() > 0 {
            QueueState { pending: self.pending.drop_first(), closed: self.closed }
        } else {
            self
        }
    }

    /// The queue after its producer side is closed. Pending jobs stay.
    pub open spec fn close(self) -> Self {
        QueueState { pending: self.pending, closed: true }
    }
}

/// An unbounded first-in, first-out queue of jobs with a one-way switch
/// from open to closed.
pub struct JobQueue<J> {
    items: VecDeque<J>,
    closed: bool,
}

impl<J> View for JobQueue<J> {
    type V = QueueState<J>;

    closed spec fn view(&self) -> QueueState<J> {
        QueueState { pending: self.items@, closed: self.closed }
    }
}

impl<J> JobQueue<J> {
    /// Creates an open queue with nothing pending.
    pub fn new() -> (q: Self)
        ensures
            q@ == QueueState::<J>::fresh(),
    {
        JobQueue { items: VecDeque::new(), closed: false }
    }

    /// Offers `job` to the queue. An open queue takes it behind everything
    /// that is pending; a closed queue hands it back untouched.
    pub fn enqueue(&mut self, job: J) -> (r: Result<(), J>)
        ensures
            final(self)@ == old(self)@.enqueue(job),
            r == (if old(self)@.closed { Err::<(), J>(job) } else { Ok::<(), J>(()) }),
    {
        if self.closed {
            Err(job)
        } else {
            self.items.push_back(job);
            Ok(())
        }
    }

    /// Asks for the next job. Pending jobs are handed out oldest first, also
    /// after the queue was closed; only an empty queue answers `Empty`
    /// (open) or `Closed`.
    pub fn dequeue(&mut self) -> (r: Dequeued<J>)
        ensures
            r == old(self)@.front(),
            final(self)@ == old(self)@.dequeue(),
    {
        match self.items.pop_front() {
            Some(job) => {
                assert(self.items@ =~= old(self).items@.drop_first());
                Dequeued::Job(job)
            },
            None => {
                if self.closed {
                    Dequeued::Closed
                } else {
                    Dequeued::Empty
                }
            },
        }
    }

    /// Closes the producer side. Closing a closed queue changes nothing.
    pub fn close(&mut self)
        ensures
            final(self)@ == old(self)@.close(),
    {
        self.closed = true;
    }

    /// Whether the producer side has been closed.
    pub fn is_closed(&self) -> (b: bool)
        ensures
            b == self@.closed,
    {
        self.closed
    }

    /// The number of pending jobs.
    pub fn len(&self) -> (n: usize)
        ensures
            n == self@.pending.len(),
    {
        self.items.len()
    }

    /// Whether no job is pending.
    pub fn is_empty(&self) -> (b: bool)
        ensures
            b == (self@.pending.len() == 0),
    {
        self.items.len() == 0
    }
}

} // verus!
