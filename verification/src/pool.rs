//! The pool: the record of a fixed set of workers and of the one producer
//! handle to their job queue, from construction to teardown.
//!
//! The pool does not start, feed or join threads itself. It is generic in
//! the producer handle `S` and in the thread handle `H`, takes the
//! operations on them as closures where their outcome matters, and hands the
//! handles out where they are to be released: the producer handle first,
//! then each thread handle once, in the order of the workers' numbers.

use crate::error::{os_error_text, PoolCreationError, ZERO_THREADS_MESSAGE};
use crate::worker::Worker;
use vstd::prelude::*;

verus! {

/// Where a pool stands between construction and the end of its teardown.
#[derive(Debug, Clone, Copy, PartialEq, Eq, Structural)]
pub enum PoolPhase {
    /// All workers are started and the producer handle is held: jobs may be
    /// submitted.
    Ready,
    /// The producer handle is gone, and some worker has yet to be joined.
    ShuttingDown,
    /// The producer handle is gone and every thread handle was handed out.
    Terminated,
}

/// The abstract content of a [`ThreadPool`].
pub struct PoolView<S, H> {
    /// The producer handle, until teardown begins.
    pub sender: Option<S>,
    /// For each worker, by its number, the handle of its thread until it is
    /// handed out to be joined.
    pub threads: Seq<Option<H>>,
}

impl<S, H> PoolView<S, H> {
    /// The pool's phase.
    pub open spec fn phase(self) -> PoolPhase {
        if self.sender is Some {
            PoolPhase::Ready
        } else if exists|i: int| 0 <= i < self.threads.len() && self.threads[i] is Some {
            PoolPhase::ShuttingDown
        } else {
            PoolPhase::Terminated
        }
    }

    /// Whether worker `i` is the one to join next: the producer handle is
    /// gone, and `i` is the lowest number whose thread handle is still held.
    pub open spec fn is_next_to_join(self, i: int) -> bool {
        &&& self.sender is None
        &&& 0 <= i < self.threads.len()
        &&& self.threads[i] is Some
        &&& forall|j: int| 0 <= j < i ==> self.threads[j] is None
    }

    /// The worker to join next, if there is one.
    pub open spec fn next_to_join(self) -> Option<int> {
        if exists|i: int| self.is_next_to_join(i) {
            Some(choose|i: int| self.is_next_to_join(i))
        } else {
            None
        }
    }

    /// The pool after teardown has begun: without its producer handle.
    pub open spec fn begin_shutdown(self) -> Self {
        PoolView { sender: None, threads: self.threads }
    }

    /// The pool after the thread handle of worker `i` was handed out.
    pub open spec fn without_thread(self, i: int) -> Self {
        PoolView { sender: self.sender, threads: self.threads.update(i, None) }
    }

    /// The pool after one step of joining: without the thread handle of the
    /// worker to join next, or unchanged where there is none.
    pub open spec fn join_next(self) -> Self {
        match self.next_to_join() {
            Some(i) => self.without_thread(i),
            None => self,
        }
    }

    /// The pool after `steps` steps of joining.
    pub open spec fn join_many(self, steps: nat) -> Self
        decreases steps,
    {
        if steps == 0 {
            self
        } else {
            self.join_many((steps - 1) as nat).join_next()
        }
    }

    /// The pool after a whole teardown: the producer handle released, then
    /// one step of joining for each worker.
    pub open spec fn teardown(self) -> Self {
        self.begin_shutdown().join_many(self.threads.len())
    }
}

/// Whether `spawn` can start the thread of worker `id`: some call of it with
/// `id` returns a handle.
pub open spec fn can_start<H, F: Fn(usize) -> Result<H, String>>(spawn: F, id: usize) -> bool {
    exists|handle: H| call_ensures(spawn, (id,), Ok::<H, String>(handle))
}

/// Whether `spawn` can fail to start the thread of worker `id`: some call of
/// it with `id` returns a failure.
pub open spec fn can_fail<H, F: Fn(usize) -> Result<H, String>>(spawn: F, id: usize) -> bool {
    exists|cause: String| call_ensures(spawn, (id,), Err::<H, String>(cause))
}

/// A fixed set of workers and the producer handle to their job queue.
pub struct ThreadPool<S, H> {
    workers: Vec<Worker<H>>,
    sender: Option<S>,
    joined: usize,
}

impl<S, H> View for ThreadPool<S, H> {
    type V = PoolView<S, H>;

    closed spec fn view(&self) -> PoolView<S, H> {
        PoolView {
            sender: self.sender,
            threads: Seq::new(self.workers.len() as nat, |i: int| self.workers[i]@.thread),
        }
    }
}

impl<S, H> ThreadPool<S, H> {
    /// Workers are numbered by their place, and thread handles are handed
    /// out from the lowest number up.
    #[verifier::type_invariant]
    spec fn well_formed(self) -> bool {
        &&& forall|i: int| 0 <= i < self.workers.len() ==> (#[trigger] self.workers[i])@.id == i
        &&& forall|i: int|
            0 <= i < self.workers.len() ==> ((#[trigger] self.workers[i])@.thread is Some <==> i
                >= self.joined)
    }

    /// Builds a pool of `size` workers around the producer handle `sender`.
    ///
    /// `spawn` starts the thread of the worker whose number it is given and
    /// returns its handle, or a description of why the thread could not be
    /// started. Workers are started in the order of their numbers, from 0.
    ///
    /// A `size` of zero is refused with [`PoolCreationError::ZeroThreads`]
    /// before anything is started. The first thread that cannot be started
    /// ends the construction with [`PoolCreationError::OsError`]; no further
    /// thread is started, and `sender` and the handles of the threads
    /// started so far are dropped. Otherwise the pool is ready, with exactly
    /// `size` workers whose threads are all still to be joined.
    pub fn build<F>(size: usize, sender: S, spawn: F) -> (r: Result<Self, PoolCreationError>) where
        F: Fn(usize) -> Result<H, String>,

        requires
            forall|id: usize| id < size ==> call_requires(spawn, (id,)),
        ensures
            size == 0 ==> r == Err::<Self, PoolCreationError>(
                PoolCreationError::ZeroThreads(ZERO_THREADS_MESSAGE),
            ),
            size > 0 ==> match r {
                Ok(pool) => {
                    &&& pool@.sender == Some(sender)
                    &&& pool@.threads.len() == size
                    &&& forall|i: int|
                        0 <= i < size ==> ((#[trigger] pool@.threads[i]) matches Some(handle)
                            && call_ensures(spawn, (i as usize,), Ok(handle)))
                },
                Err(PoolCreationError::OsError(message)) => exists|id: usize, cause: String|
                    {
                        &&& id < size
                        &&& #[trigger] call_ensures(spawn, (id,), Err(cause))
                        &&& message@ == os_error_text(cause@)
                        &&& forall|i: usize| i < id ==> #[trigger] can_start::<H, F>(spawn, i)
                    },
                Err(PoolCreationError::ZeroThreads(_)) => false,
            },
            size > 0 && (forall|id: usize| id < size ==> !#[trigger] can_fail::<H, F>(spawn, id))
                ==> r is Ok,
            (exists|id: usize| id < size && !#[trigger] can_start::<H, F>(spawn, id)) ==> r is Err,
    {
        if size == 0 {
            return Err(PoolCreationError::zero_threads());
        }
        let mut workers: Vec<Worker<H>> = Vec::new();
        let mut id: usize = 0;
        while id < size
            invariant
                id <= size,
                workers.len() == id,
                forall|k: usize| k < size ==> call_requires(spawn, (k,)),
                forall|i: int|
                    0 <= i < id ==> {
                        &&& (#[trigger] workers[i])@.id == i
                        &&& workers[i]@.thread matches Some(handle) && call_ensures(
                            spawn,
                            (i as usize,),
                            Ok(handle),
                        )
                    },
            decreases size - id,
        {
            let spawned = spawn(id);
            let ghost outcome = spawned;
            match Worker::new(id, spawned) {
                Ok(worker) => {
                    workers.push(worker);
                },
                Err(error) => {
                    proof {
                        assert(call_ensures(spawn, (id,), Err::<H, String>(outcome->Err_0)));
                        assert(can_fail::<H, F>(spawn, id));
                        assert forall|i: usize| i < id implies #[trigger] can_start::<H, F>(
                            spawn,
                            i,
                        ) by {
                            let handle = workers[i as int]@.thread->0;
                            assert(call_ensures(spawn, (i,), Ok::<H, String>(handle)));
                        }
                    }
                    return Err(error);
                },
            }
            id = id + 1;
        }
        let pool = ThreadPool { workers, sender: Some(sender), joined: 0 };
        proof {
            assert(pool@.threads.len() == size);
            assert forall|i: usize| i < size implies #[trigger] can_start::<H, F>(spawn, i) by {
                let handle = pool.workers[i as int]@.thread->0;
                assert(call_ensures(spawn, (i,), Ok::<H, String>(handle)));
            }
        }
        Ok(pool)
    }

    /// Submits `job` through the producer handle: `enqueue` is called with
    /// the handle and the job, and its answer is returned. Once teardown has
    /// begun there is no handle; the job is then handed back in `Err` and
    /// `enqueue` is not called.
    pub fn execute<J, F>(&self, job: J, enqueue: F) -> (r: Result<(), J>) where
        F: FnOnce(&S, J) -> Result<(), J>,

        requires
            self@.sender matches Some(s) ==> call_requires(enqueue, (&s, job)),
        ensures
            match self@.sender {
                Some(s) => call_ensures(enqueue, (&s, job), r),
                None => r == Err::<(), J>(job),
            },
    {
        match &self.sender {
            Some(s) => enqueue(s, job),
            None => Err(job),
        }
    }

    /// The number of workers.
    pub fn size(&self) -> (n: usize)
        ensures
            n == self@.threads.len(),
    {
        self.workers.len()
    }

    /// The pool's phase.
    pub fn phase(&self) -> (phase: PoolPhase)
        ensures
            phase == self@.phase(),
    {
        proof {
            use_type_invariant(self);
        }
        if self.sender.is_some() {
            PoolPhase::Ready
        } else if self.joined < self.workers.len() {
            assert(self@.threads[self.joined as int] is Some);
            PoolPhase::ShuttingDown
        } else {
            PoolPhase::Terminated
        }
    }

    /// Begins teardown: takes the producer handle out of the pool and
    /// returns it, to be released before any worker is joined. From here on
    /// the pool accepts no job. Later calls find no handle and change
    /// nothing.
    pub fn begin_shutdown(&mut self) -> (sender: Option<S>)
        ensures
            sender == old(self)@.sender,
            final(self)@ == old(self)@.begin_shutdown(),
    {
        proof {
            use_type_invariant(&*self);
        }
        let mut sender: Option<S> = None;
        std::mem::swap(&mut sender, &mut self.sender);
        sender
    }

    /// Hands out the thread of the worker to join next, with the worker's
    /// number: the lowest-numbered worker whose thread was not handed out
    /// yet. Returns `None`, and changes nothing, while the producer handle
    /// is still held and once every thread was handed out.
    pub fn next_join(&mut self) -> (r: Option<(usize, H)>)
        ensures
            final(self)@ == old(self)@.join_next(),
            match old(self)@.next_to_join() {
                Some(i) => r == Some((i as usize, old(self)@.threads[i]->0)),
                None => r is None,
            },
    {
        proof {
            use_type_invariant(&*self);
        }
        if self.sender.is_some() || self.joined >= self.workers.len() {
            assert(forall|i: int| !old(self)@.is_next_to_join(i));
            return None;
        }
        let at: usize = self.joined;
        assert(old(self)@.is_next_to_join(at as int));
        let mut workers: Vec<Worker<H>> = Vec::new();
        std::mem::swap(&mut workers, &mut self.workers);
        let id: usize = workers[at].id();
        let handle = workers[at].take_thread();
        self.joined = at + 1;
        self.workers = workers;
        assert(self@.threads =~= old(self)@.threads.update(at as int, None));
        match handle {
            Some(handle) => Some((id, handle)),
            None => None,
        }
    }
}

/// The worker to join next is the one that [`PoolView::is_next_to_join`]
/// describes, and there is at most one such worker.
pub proof fn lemma_next_to_join<S, H>(pool: PoolView<S, H>, i: int)
    ensures
        pool.is_next_to_join(i) <==> pool.next_to_join() == Some(i),
{
    if pool.is_next_to_join(i) {
        let j = choose|j: int| pool.is_next_to_join(j);
        assert(pool.is_next_to_join(j));
        assert(i == j) by {
            if i < j {
                assert(pool.threads[i] is None);
            }
            if j < i {
                assert(pool.threads[j] is None);
            }
        }
    }
}

/// Workers are joined from the lowest number up, each once: after `steps`
/// steps of joining, begun once the producer handle is gone, the threads of
/// the first `steps` workers are handed out, and no slot holds anything but
/// what it held before. Where every thread was still held at the start, the
/// threads of all other workers are still held.
pub proof fn lemma_join_many<S, H>(pool: PoolView<S, H>, steps: nat)
    requires
        pool.sender is None,
        steps <= pool.threads.len(),
    ensures
        pool.join_many(steps).sender is None,
        pool.join_many(steps).threads.len() == pool.threads.len(),
        forall|i: int| 0 <= i < steps ==> pool.join_many(steps).threads[i] is None,
        forall|i: int|
            0 <= i < pool.threads.len() ==> pool.join_many(steps).threads[i] is None
                || pool.join_many(steps).threads[i] == pool.threads[i],
        (forall|i: int| 0 <= i < pool.threads.len() ==> pool.threads[i] is Some) ==> (forall|i: int|
            steps <= i < pool.threads.len() ==> pool.join_many(steps).threads[i]
                == pool.threads[i]),
    decreases steps,
{
    if steps > 0 {
        let before = pool.join_many((steps - 1) as nat);
        lemma_join_many(pool, (steps - 1) as nat);
        let last = steps - 1;
        if forall|i: int| 0 <= i < pool.threads.len() ==> pool.threads[i] is Some {
            assert(pool.threads[last] is Some);
            assert(before.threads[last] == pool.threads[last]);
        }
        if before.threads[last] is Some {
            assert(before.is_next_to_join(last));
            lemma_next_to_join(before, last);
            assert(pool.join_many(steps) == before.without_thread(last));
        } else {
            match before.next_to_join() {
                Some(i) => {
                    lemma_next_to_join(before, i);
                    assert(before.is_next_to_join(i));
                },
                None => {},
            }
        }
    }
}

/// A teardown ends with the pool terminated: no producer handle, and no
/// thread left to join.
pub proof fn lemma_teardown_ends_terminated<S, H>(pool: PoolView<S, H>)
    ensures
        pool.teardown().phase() == PoolPhase::Terminated,
        pool.teardown().sender is None,
        pool.teardown().threads.len() == pool.threads.len(),
        forall|i: int| 0 <= i < pool.threads.len() ==> pool.teardown().threads[i] is None,
{
    lemma_join_many(pool.begin_shutdown(), pool.threads.len());
}

/// A terminated pool has nothing left to release: beginning the shutdown
/// again finds no producer handle, no thread is handed out again, and the
/// pool stays as it is. So tearing a pool down twice is tearing it down
/// once.
pub proof fn lemma_teardown_twice<S, H>(pool: PoolView<S, H>)
    ensures
        pool.phase() == PoolPhase::Terminated ==> {
            &&& pool.sender is None
            &&& pool.begin_shutdown() == pool
            &&& pool.next_to_join() is None
            &&& pool.join_next() == pool
            &&& pool.teardown() == pool
        },
        pool.teardown().teardown() == pool.teardown(),
{
    if pool.phase() == PoolPhase::Terminated {
        lemma_terminated_stays(pool, pool.threads.len());
    }
    lemma_teardown_ends_terminated(pool);
    lemma_terminated_stays(pool.teardown(), pool.teardown().threads.len());
}

/// Joining changes nothing in a terminated pool.
proof fn lemma_terminated_stays<S, H>(pool: PoolView<S, H>, steps: nat)
    requires
        pool.phase() == PoolPhase::Terminated,
    ensures
        pool.begin_shutdown() == pool,
        pool.next_to_join() is None,
        pool.join_many(steps) == pool,
    decreases steps,
{
    assert(forall|i: int| !pool.is_next_to_join(i));
    if steps > 0 {
        lemma_terminated_stays(pool, (steps - 1) as nat);
    }
}

} // verus!
