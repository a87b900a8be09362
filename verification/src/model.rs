//! The pool at work: a model of the queue, the workers and the teardown as
//! one system that moves in atomic steps, and the laws that hold of every
//! run of it.
//!
//! Each step is one operation of the library: a submission is
//! [`QueueState::enqueue`], a worker's turn is [`QueueState::front`] and
//! [`QueueState::dequeue`] followed by [`WorkerState::after`], the closure is
//! [`QueueState::close`]. Running a job is not a step but the time between
//! two: a worker that received a job is busy until its `Finish` step, the
//! return of [`WorkerState::run`], and other workers move meanwhile. Steps
//! of different threads may interleave in any order; the laws hold for all
//! of them.

use crate::pool::PoolPhase;
use crate::queue::{Dequeued, QueueState};
use crate::worker::WorkerState;
use vstd::prelude::*;
use vstd::set_lib::{lemma_int_range, set_int_range};

verus! {

/// What one worker is doing. A job is named by its ticket: its place in the
/// order of submission, counted from 0.
pub enum Activity {
    /// Waiting at the queue.
    Idle,
    /// Running the job with this ticket.
    Running(int),
    /// Gone.
    Terminated,
}

impl Activity {
    /// The worker's state in its life cycle.
    pub open spec fn state(self) -> WorkerState {
        match self {
            Activity::Idle => WorkerState::Idle,
            Activity::Running(_) => WorkerState::Executing,
            Activity::Terminated => WorkerState::Terminated,
        }
    }

    /// The number of steps the worker takes at least before it is gone: one
    /// to learn of the closure, and one before that to end a job in hand.
    pub open spec fn weight(self) -> nat {
        match self {
            Activity::Idle => 1,
            Activity::Running(_) => 2,
            Activity::Terminated => 0,
        }
    }

    /// What an idle worker does after the queue answered `outcome`, where
    /// `ticket` is the ticket of the job it was given, if any.
    pub open spec fn after<J>(outcome: Dequeued<J>, ticket: int) -> Activity {
        match outcome {
            Dequeued::Job(_) => Activity::Running(ticket),
            Dequeued::Empty => Activity::Idle,
            Dequeued::Closed => Activity::Terminated,
        }
    }
}

/// The sum of the workers' weights.
pub open spec fn load(workers: Seq<Activity>) -> nat
    decreases workers.len(),
{
    if workers.len() == 0 {
        0
    } else {
        load(workers.drop_last()) + workers.last().weight()
    }
}

/// The state of a pool at work.
pub struct System<J> {
    /// The job queue.
    pub queue: QueueState<J>,
    /// What each worker is doing, by the worker's number.
    pub workers: Seq<Activity>,
    /// Every job the queue accepted, in the order of acceptance. The job
    /// with ticket `t` is `submitted[t]`.
    pub submitted: Seq<J>,
    /// Every job handed to a worker, in the order of the hand-overs.
    pub delivered: Seq<J>,
    /// The tickets of the jobs that have run to their end, in the order in
    /// which they ended.
    pub completed: Seq<int>,
    /// How many workers the teardown has joined; it joins them in the order
    /// of their numbers.
    pub joined: nat,
}

/// One atomic step of the system.
pub enum Step<J> {
    /// A submitter enqueues a job.
    Submit(J),
    /// The pool closes the producer side of the queue: teardown begins.
    Close,
    /// The idle worker with this number takes its turn at the queue.
    Receive(int),
    /// The job that the worker with this number is running ends.
    Finish(int),
    /// The teardown's wait for the next worker's thread ends.
    Join,
}

impl<J> System<J> {
    /// A pool of `size` workers right after construction: the queue open
    /// and empty, every worker waiting.
    pub open spec fn init(size: nat) -> Self {
        System {
            queue: QueueState::fresh(),
            workers: Seq::new(size, |i: int| Activity::Idle),
            submitted: Seq::empty(),
            delivered: Seq::empty(),
            completed: Seq::empty(),
            joined: 0,
        }
    }

    /// The number of workers.
    pub open spec fn size(self) -> nat {
        self.workers.len()
    }

    /// The phase of the pool.
    pub open spec fn phase(self) -> PoolPhase {
        if !self.queue.closed {
            PoolPhase::Ready
        } else if self.joined < self.size() {
            PoolPhase::ShuttingDown
        } else {
            PoolPhase::Terminated
        }
    }

    /// The number of steps that a teardown from here takes: two for each
    /// pending job (its delivery and its end), the steps that each worker
    /// has before it, and one wait for each thread not yet joined.
    pub open spec fn work_left(self) -> nat {
        (2 * self.queue.pending.len() + load(self.workers) + (self.workers.len()
            - self.joined)) as nat
    }

    /// Whether worker `w` is running the job with ticket `t`.
    pub open spec fn runs(self, w: int, t: int) -> bool {
        0 <= w < self.workers.len() && self.workers[w] == Activity::Running(t)
    }

    /// Whether `step` can be taken. A submission needs an open queue, and
    /// the queue is closed once. A worker takes its turn only when idle and
    /// only when the queue has an answer for it: a job, or its closure;
    /// before an open, empty queue it waits. A wait for a thread ends only
    /// once teardown has begun and that thread's worker is gone.
    pub open spec fn enabled(self, step: Step<J>) -> bool {
        match step {
            Step::Submit(_) => !self.queue.closed,
            Step::Close => !self.queue.closed,
            Step::Receive(w) => {
                &&& 0 <= w < self.workers.len()
                &&& self.workers[w] is Idle
                &&& !(self.queue.front() is Empty)
            },
            Step::Finish(w) => 0 <= w < self.workers.len() && self.workers[w] is Running,
            Step::Join => {
                &&& self.queue.closed
                &&& self.joined < self.workers.len()
                &&& self.workers[self.joined as int] is Terminated
            },
        }
    }

    /// The state after `step`.
    pub open spec fn next(self, step: Step<J>) -> Self {
        match step {
            Step::Submit(job) => System {
                queue: self.queue.enqueue(job),
                submitted: self.submitted.push(job),
                ..self
            },
            Step::Close => System { queue: self.queue.close(), ..self },
            Step::Receive(w) => System {
                queue: self.queue.dequeue(),
                workers: self.workers.update(
                    w,
                    Activity::after(self.queue.front(), self.delivered.len() as int),
                ),
                delivered: match self.queue.front() {
                    Dequeued::Job(job) => self.delivered.push(job),
                    _ => self.delivered,
                },
                ..self
            },
            Step::Finish(w) => System {
                workers: self.workers.update(w, Activity::Idle),
                completed: self.completed.push(self.workers[w]->Running_0),
                ..self
            },
            Step::Join => System { joined: self.joined + 1, ..self },
        }
    }

    /// Whether the steps of `steps` can be taken one after the other,
    /// starting here.
    pub open spec fn admits(self, steps: Seq<Step<J>>) -> bool
        decreases steps.len(),
    {
        if steps.len() == 0 {
            true
        } else {
            self.admits(steps.drop_last()) && self.run(steps.drop_last()).enabled(steps.last())
        }
    }

    /// The state after the steps of `steps`, taken one after the other.
    pub open spec fn run(self, steps: Seq<Step<J>>) -> Self
        decreases steps.len(),
    {
        if steps.len() == 0 {
            self
        } else {
            self.run(steps.drop_last()).next(steps.last())
        }
    }

    /// Whether the job with ticket `t` is accounted for: it has run to its
    /// end, or some worker is running it.
    pub open spec fn accounted(self, t: int) -> bool {
        self.completed.contains(t) || exists|w: int| self.runs(w, t)
    }

    /// Whether the books on the jobs are in order: only delivered jobs run
    /// or have ended, none of them twice or in two places, and none is
    /// missing.
    pub open spec fn accounts_for_jobs(self) -> bool {
        &&& forall|w: int, t: int| #[trigger]
            self.runs(w, t) ==> 0 <= t < self.delivered.len() && !self.completed.contains(t)
        &&& forall|w1: int, w2: int, t: int|
            #[trigger] self.runs(w1, t) && #[trigger] self.runs(w2, t) ==> w1 == w2
        &&& self.completed.no_duplicates()
        &&& forall|i: int|
            0 <= i < self.completed.len() ==> 0 <= #[trigger] self.completed[i]
                < self.delivered.len()
        &&& forall|t: int| 0 <= t < self.delivered.len() ==> #[trigger] self.accounted(t)
    }

    /// What holds of every state that a run from [`System::init`] reaches.
    pub open spec fn consistent(self) -> bool {
        &&& self.workers.len() >= 1
        &&& self.joined <= self.workers.len()
        &&& self.delivered + self.queue.pending == self.submitted
        &&& self.accounts_for_jobs()
        &&& forall|w: int|
            0 <= w < self.workers.len() && #[trigger] self.workers[w] is Terminated
                ==> self.queue.closed && self.queue.pending.len() == 0
        &&& forall|w: int| 0 <= w < self.joined ==> #[trigger] self.workers[w] is Terminated
    }
}

/// Each step is what the operation of the library that takes it does: to
/// the queue what [`QueueState`] says, and to the worker that takes its turn
/// what [`WorkerState::after`] says.
pub proof fn lemma_steps_are_operations<J>(s: System<J>, w: int, job: J)
    requires
        0 <= w < s.workers.len(),
    ensures
        s.next(Step::Submit(job)).queue == s.queue.enqueue(job),
        s.next(Step::Close).queue == s.queue.close(),
        s.next(Step::Receive(w)).queue == s.queue.dequeue(),
        s.next(Step::Receive(w)).workers[w].state() == WorkerState::after(s.queue.front()),
        s.next(Step::Finish(w)).workers[w].state() == WorkerState::Idle,
        s.next(Step::Finish(w)).queue == s.queue,
        s.next(Step::Join).queue == s.queue,
        s.next(Step::Join).workers == s.workers,
{
}

/// A fresh pool is consistent.
pub proof fn lemma_init_consistent<J>(size: nat)
    requires
        size >= 1,
    ensures
        System::<J>::init(size).consistent(),
{
    let s = System::<J>::init(size);
    assert(s.delivered + s.queue.pending =~= s.submitted);
}

/// Every step keeps a consistent pool consistent.
pub proof fn lemma_step_consistent<J>(s: System<J>, step: Step<J>)
    requires
        s.consistent(),
        s.enabled(step),
    ensures
        s.next(step).consistent(),
{
    let n = s.next(step);
    match step {
        Step::Submit(job) => {
            lemma_jobs_untouched(s, n);
            assert(n.delivered + n.queue.pending =~= n.submitted);
            assert(forall|w: int| 0 <= w < n.workers.len() ==> !(s.workers[w] is Terminated));
        },
        Step::Close => {
            lemma_jobs_untouched(s, n);
            assert(forall|w: int| 0 <= w < n.workers.len() ==> !(s.workers[w] is Terminated));
        },
        Step::Receive(me) => {
            match s.queue.front() {
                Dequeued::Job(_) => {
                    lemma_delivery_consistent(s, me);
                },
                Dequeued::Closed => {
                    lemma_jobs_unmoved(s, n, me);
                    assert forall|w: int|
                        0 <= w < n.workers.len() && #[trigger] n.workers[w] is Terminated implies {
                        &&& n.queue.closed
                        &&& n.queue.pending.len() == 0
                    } by {
                        if w != me {
                            assert(s.workers[w] is Terminated);
                        }
                    }
                    assert forall|w: int| 0 <= w < n.joined implies #[trigger]
                        n.workers[w] is Terminated by {
                        assert(s.workers[w] is Terminated);
                    }
                },
                Dequeued::Empty => {},
            }
        },
        Step::Finish(me) => {
            lemma_finish_consistent(s, me);
        },
        Step::Join => {
            lemma_jobs_untouched(s, n);
        },
    }
}

/// A step that leaves workers and job histories alone leaves the books in
/// order.
proof fn lemma_jobs_untouched<J>(s: System<J>, n: System<J>)
    requires
        s.accounts_for_jobs(),
        n.workers == s.workers,
        n.delivered == s.delivered,
        n.completed == s.completed,
    ensures
        n.accounts_for_jobs(),
{
    lemma_jobs_unmoved(s, n, -1);
}

/// A step that changes at most what the idle worker `me` does, to something
/// other than running a job, leaves the books in order.
proof fn lemma_jobs_unmoved<J>(s: System<J>, n: System<J>, me: int)
    requires
        s.accounts_for_jobs(),
        n.workers.len() == s.workers.len(),
        forall|w: int| 0 <= w < s.workers.len() && w != me ==> n.workers[w] == s.workers[w],
        0 <= me < s.workers.len() ==> !(s.workers[me] is Running) && !(n.workers[me] is Running),
        n.delivered == s.delivered,
        n.completed == s.completed,
    ensures
        n.accounts_for_jobs(),
{
    assert forall|w: int, t: int| #[trigger] n.runs(w, t) implies s.runs(w, t) by {}
    assert forall|w: int, t: int| #[trigger] s.runs(w, t) implies n.runs(w, t) by {}
    assert forall|w1: int, w2: int, t: int| #[trigger]
        n.runs(w1, t) && #[trigger] n.runs(w2, t) implies w1 == w2 by {
        assert(s.runs(w1, t) && s.runs(w2, t));
    }
    assert forall|t: int| 0 <= t < n.delivered.len() implies #[trigger] n.accounted(t) by {
        assert(s.accounted(t));
        if !s.completed.contains(t) {
            let w = choose|w: int| s.runs(w, t);
            assert(n.runs(w, t));
        }
    }
}

/// The delivery of a job to the idle worker `me` keeps the pool consistent.
proof fn lemma_delivery_consistent<J>(s: System<J>, me: int)
    requires
        s.consistent(),
        s.enabled(Step::Receive(me)),
        s.queue.front() is Job,
    ensures
        s.next(Step::Receive(me)).consistent(),
{
    let n = s.next(Step::Receive(me));
    let ticket = s.delivered.len() as int;
    assert(n.workers[me] == Activity::Running(ticket));
    assert(n.delivered + n.queue.pending =~= n.submitted);
    assert forall|w: int, t: int| #[trigger] n.runs(w, t) implies 0 <= t < n.delivered.len()
        && !n.completed.contains(t) by {
        if w == me {
            if s.completed.contains(t) {
                let i = choose|i: int| 0 <= i < s.completed.len() && s.completed[i] == t;
                assert(s.completed[i] < s.delivered.len());
            }
        } else {
            assert(s.runs(w, t));
        }
    }
    assert forall|w1: int, w2: int, t: int| #[trigger]
        n.runs(w1, t) && #[trigger] n.runs(w2, t) implies w1 == w2 by {
        if w1 != me {
            assert(s.runs(w1, t));
        }
        if w2 != me {
            assert(s.runs(w2, t));
        }
    }
    assert forall|t: int| 0 <= t < n.delivered.len() implies #[trigger] n.accounted(t) by {
        if t == ticket {
            assert(n.runs(me, t));
        } else {
            assert(s.accounted(t));
            if !s.completed.contains(t) {
                let w = choose|w: int| s.runs(w, t);
                assert(n.runs(w, t));
            }
        }
    }
    assert forall|w: int|
        0 <= w < n.workers.len() && #[trigger] n.workers[w] is Terminated implies false by {
        assert(s.workers[w] is Terminated);
    }
    assert forall|w: int| 0 <= w < n.joined implies #[trigger] n.workers[w] is Terminated by {
        assert(s.workers[w] is Terminated);
    }
}

/// The end of the job that worker `me` runs keeps the pool consistent.
proof fn lemma_finish_consistent<J>(s: System<J>, me: int)
    requires
        s.consistent(),
        s.enabled(Step::Finish(me)),
    ensures
        s.next(Step::Finish(me)).consistent(),
{
    let n = s.next(Step::Finish(me));
    let done = s.workers[me]->Running_0;
    assert(s.runs(me, done));
    assert forall|x: int| n.completed.contains(x) <==> (s.completed.contains(x) || x == done) by {
        if n.completed.contains(x) {
            let i = choose|i: int| 0 <= i < n.completed.len() && n.completed[i] == x;
            if i < s.completed.len() {
                assert(s.completed[i] == x);
            }
        }
        if s.completed.contains(x) {
            let i = choose|i: int| 0 <= i < s.completed.len() && s.completed[i] == x;
            assert(n.completed[i] == x);
        }
        if x == done {
            assert(n.completed[s.completed.len() as int] == x);
        }
    }
    assert forall|w: int, t: int| #[trigger] n.runs(w, t) implies 0 <= t < n.delivered.len()
        && !n.completed.contains(t) by {
        assert(s.runs(w, t));
        if t == done {
            assert(s.runs(me, t));
        }
    }
    assert forall|w1: int, w2: int, t: int| #[trigger]
        n.runs(w1, t) && #[trigger] n.runs(w2, t) implies w1 == w2 by {
        assert(s.runs(w1, t) && s.runs(w2, t));
    }
    assert forall|i: int, j: int|
        0 <= i < n.completed.len() && 0 <= j < n.completed.len() && i != j implies n.completed[i]
        != n.completed[j] by {
        if i < s.completed.len() && j < s.completed.len() {
        } else if i < s.completed.len() {
            assert(s.completed.contains(s.completed[i]));
        } else {
            assert(s.completed.contains(s.completed[j]));
        }
    }
    assert forall|t: int| 0 <= t < n.delivered.len() implies #[trigger] n.accounted(t) by {
        assert(s.accounted(t));
        if t != done && !s.completed.contains(t) {
            let w = choose|w: int| s.runs(w, t);
            assert(n.runs(w, t));
        }
    }
    assert forall|w: int|
        0 <= w < n.workers.len() && #[trigger] n.workers[w] is Terminated implies n.queue.closed
        && n.queue.pending.len() == 0 by {
        assert(s.workers[w] is Terminated);
    }
    assert forall|w: int| 0 <= w < n.joined implies #[trigger] n.workers[w] is Terminated by {
        assert(s.workers[w] is Terminated);
    }
}

/// Every run from a consistent pool ends in a consistent pool.
pub proof fn lemma_run_consistent<J>(s: System<J>, steps: Seq<Step<J>>)
    requires
        s.consistent(),
        s.admits(steps),
    ensures
        s.run(steps).consistent(),
    decreases steps.len(),
{
    if steps.len() > 0 {
        lemma_run_consistent(s, steps.drop_last());
        lemma_step_consistent(s.run(steps.drop_last()), steps.last());
    }
}

/// Taking one more step at the end of a run.
pub proof fn lemma_run_push<J>(s: System<J>, steps: Seq<Step<J>>, step: Step<J>)
    ensures
        s.run(steps.push(step)) == s.run(steps).next(step),
        s.admits(steps.push(step)) == (s.admits(steps) && s.run(steps).enabled(step)),
{
    assert(steps.push(step).drop_last() =~= steps);
}

/// Jobs are handed to workers in the order of their submission: in every
/// run of a pool, the jobs delivered so far are the first of the jobs
/// submitted, in the same order, and the queue holds the rest. So a job
/// submitted before another is delivered before it, whichever worker takes
/// it and whichever ends first.
pub proof fn lemma_delivery_follows_submission<J>(size: nat, steps: Seq<Step<J>>)
    requires
        size >= 1,
        System::<J>::init(size).admits(steps),
    ensures
        ({
            let s = System::<J>::init(size).run(steps);
            &&& s.delivered.is_prefix_of(s.submitted)
            &&& s.queue.pending == s.submitted.skip(s.delivered.len() as int)
        }),
{
    let s = System::<J>::init(size).run(steps);
    lemma_init_consistent::<J>(size);
    lemma_run_consistent(System::<J>::init(size), steps);
    assert(s.delivered + s.queue.pending == s.submitted);
    assert(s.delivered =~= s.submitted.subrange(0, s.delivered.len() as int));
    assert(s.queue.pending =~= s.submitted.skip(s.delivered.len() as int));
}

/// No job runs twice: in every run of a pool, no ticket is completed more
/// than once, no two workers run the same job, no job that has ended is
/// running, and only delivered jobs run or have ended.
pub proof fn lemma_no_job_runs_twice<J>(size: nat, steps: Seq<Step<J>>)
    requires
        size >= 1,
        System::<J>::init(size).admits(steps),
    ensures
        ({
            let s = System::<J>::init(size).run(steps);
            &&& s.completed.no_duplicates()
            &&& forall|w1: int, w2: int, t: int|
                #[trigger] s.runs(w1, t) && #[trigger] s.runs(w2, t) ==> w1 == w2
            &&& forall|w: int, t: int| #[trigger] s.runs(w, t) ==> !s.completed.contains(t)
            &&& forall|w: int, t: int| #[trigger] s.runs(w, t) ==> 0 <= t < s.delivered.len()
            &&& forall|t: int| #[trigger]
                s.completed.contains(t) ==> 0 <= t < s.delivered.len()
        }),
{
    let s = System::<J>::init(size).run(steps);
    lemma_init_consistent::<J>(size);
    lemma_run_consistent(System::<J>::init(size), steps);
    assert forall|t: int| #[trigger] s.completed.contains(t) implies 0 <= t
        < s.delivered.len() by {
        let i = choose|i: int| 0 <= i < s.completed.len() && s.completed[i] == t;
        assert(0 <= s.completed[i] < s.delivered.len());
    }
}

/// No job is left behind: once the teardown of a pool has joined every
/// worker, the queue is empty, every job that was ever accepted has been
/// delivered, and each has run to its end exactly once.
pub proof fn lemma_teardown_completes_every_job<J>(size: nat, steps: Seq<Step<J>>)
    requires
        size >= 1,
        System::<J>::init(size).admits(steps),
        System::<J>::init(size).run(steps).phase() == PoolPhase::Terminated,
    ensures
        ({
            let s = System::<J>::init(size).run(steps);
            &&& s.queue.pending.len() == 0
            &&& s.delivered == s.submitted
            &&& forall|w: int| 0 <= w < s.workers.len() ==> s.workers[w] is Terminated
            &&& forall|t: int| 0 <= t < s.submitted.len() ==> s.completed.contains(t)
            &&& forall|t: int| s.completed.contains(t) ==> 0 <= t < s.submitted.len()
            &&& s.completed.no_duplicates()
            &&& s.completed.len() == s.submitted.len()
        }),
{
    let s = System::<J>::init(size).run(steps);
    lemma_init_consistent::<J>(size);
    lemma_run_consistent(System::<J>::init(size), steps);
    lemma_no_job_runs_twice::<J>(size, steps);
    assert(s.workers[0] is Terminated);
    assert(s.delivered =~= s.submitted);
    assert forall|t: int| 0 <= t < s.submitted.len() implies s.completed.contains(t) by {
        assert(s.accounted(t));
        if !s.completed.contains(t) {
            let w = choose|w: int| s.runs(w, t);
            assert(s.workers[w] is Terminated);
        }
    }
    let tickets = s.completed.to_set();
    let all = set_int_range(0, s.submitted.len() as int);
    assert(tickets =~= all) by {
        assert forall|t: int| tickets.contains(t) <==> all.contains(t) by {
            assert(tickets.contains(t) <==> s.completed.contains(t));
        }
    }
    s.completed.unique_seq_to_set();
    lemma_int_range(0, s.submitted.len() as int);
}

/// Changing what one worker does changes the load by the difference of the
/// weights.
pub proof fn lemma_load_update(workers: Seq<Activity>, w: int, activity: Activity)
    requires
        0 <= w < workers.len(),
    ensures
        load(workers.update(w, activity)) + workers[w].weight() == load(workers)
            + activity.weight(),
    decreases workers.len(),
{
    let updated = workers.update(w, activity);
    if w == workers.len() - 1 {
        assert(updated.drop_last() =~= workers.drop_last());
    } else {
        assert(updated.drop_last() =~= workers.drop_last().update(w, activity));
        lemma_load_update(workers.drop_last(), w, activity);
    }
}

/// The load is zero exactly when every worker is gone.
pub proof fn lemma_load_zero(workers: Seq<Activity>)
    ensures
        load(workers) == 0 <==> forall|w: int|
            0 <= w < workers.len() ==> #[trigger] workers[w] is Terminated,
    decreases workers.len(),
{
    if workers.len() > 0 {
        let front = workers.drop_last();
        lemma_load_zero(front);
        if load(workers) == 0 {
            assert forall|w: int| 0 <= w < workers.len() implies #[trigger]
                workers[w] is Terminated by {
                if w < front.len() {
                    assert(front[w] is Terminated);
                }
            }
        }
        if forall|w: int| 0 <= w < workers.len() ==> #[trigger] workers[w] is Terminated {
            assert forall|w: int| 0 <= w < front.len() implies #[trigger]
                front[w] is Terminated by {
                assert(workers[w] is Terminated);
            }
            assert(workers.last() == workers[workers.len() - 1]);
        }
    }
}

/// Once the queue is closed, every step that can be taken is a step of the
/// teardown, and it brings the teardown one step closer to its end.
pub proof fn lemma_teardown_step<J>(s: System<J>, step: Step<J>)
    requires
        s.consistent(),
        s.queue.closed,
        s.enabled(step),
    ensures
        s.next(step).queue.closed,
        s.next(step).work_left() + 1 == s.work_left(),
{
    match step {
        Step::Submit(_) => {},
        Step::Close => {},
        Step::Receive(w) => {
            lemma_load_update(
                s.workers,
                w,
                Activity::after(s.queue.front(), s.delivered.len() as int),
            );
        },
        Step::Finish(w) => {
            lemma_load_update(s.workers, w, Activity::Idle);
        },
        Step::Join => {},
    }
}

/// A teardown under way is never stuck: while some worker has yet to be
/// joined, some step can be taken, given only that a job that runs also
/// ends. The step returned is such a step.
pub proof fn lemma_teardown_not_stuck<J>(s: System<J>) -> (step: Step<J>)
    requires
        s.consistent(),
        s.phase() == PoolPhase::ShuttingDown,
    ensures
        s.enabled(step),
{
    if exists|w: int| 0 <= w < s.workers.len() && s.workers[w] is Running {
        let w = choose|w: int| 0 <= w < s.workers.len() && s.workers[w] is Running;
        Step::Finish(w)
    } else if exists|w: int| 0 <= w < s.workers.len() && s.workers[w] is Idle {
        let w = choose|w: int| 0 <= w < s.workers.len() && s.workers[w] is Idle;
        Step::Receive(w)
    } else {
        Step::Join
    }
}

/// A teardown is over exactly when no work is left.
pub proof fn lemma_teardown_over<J>(s: System<J>)
    requires
        s.consistent(),
        s.queue.closed,
    ensures
        s.work_left() == 0 <==> s.phase() == PoolPhase::Terminated,
{
    lemma_load_zero(s.workers);
    if s.phase() == PoolPhase::Terminated {
        assert(s.workers[0] is Terminated);
    }
}

/// Teardown terminates: from the closure of the queue on, a pool takes
/// exactly as many steps as work was left at the closure and is then torn
/// down; it cannot take more, and it is not stuck before. The steps taken
/// before the closure are `before`, those after it `after`.
pub proof fn lemma_teardown_terminates<J>(size: nat, before: Seq<Step<J>>, after: Seq<Step<J>>)
    requires
        size >= 1,
        System::<J>::init(size).admits(before),
        System::<J>::init(size).run(before).queue.closed,
        System::<J>::init(size).run(before).admits(after),
    ensures
        ({
            let closed = System::<J>::init(size).run(before);
            let s = closed.run(after);
            &&& s.queue.closed
            &&& s.work_left() + after.len() == closed.work_left()
            &&& after.len() == closed.work_left() <==> s.phase() == PoolPhase::Terminated
            &&& after.len() < closed.work_left() ==> exists|step: Step<J>| s.enabled(step)
        }),
    decreases after.len(),
{
    let closed = System::<J>::init(size).run(before);
    lemma_init_consistent::<J>(size);
    lemma_run_consistent(System::<J>::init(size), before);
    lemma_run_consistent(closed, after);
    let s = closed.run(after);
    if after.len() > 0 {
        lemma_teardown_terminates(size, before, after.drop_last());
        lemma_run_consistent(closed, after.drop_last());
        lemma_teardown_step(closed.run(after.drop_last()), after.last());
    }
    lemma_teardown_over(s);
    if s.phase() == PoolPhase::ShuttingDown {
        let step = lemma_teardown_not_stuck(s);
        assert(s.enabled(step));
    }
}

/// Two jobs can run at the same time: in a pool of two or more workers, the
/// run returned, in which two jobs are submitted and two workers take their
/// turn, ends with both jobs running, each on a worker of its own.
pub proof fn lemma_jobs_can_overlap<J>(size: nat, first: J, second: J) -> (steps: Seq<Step<J>>)
    requires
        size >= 2,
    ensures
        System::<J>::init(size).admits(steps),
        ({
            let s = System::<J>::init(size).run(steps);
            &&& s.submitted == seq![first, second]
            &&& s.runs(0, 0)
            &&& s.runs(1, 1)
        }),
{
    let s0 = System::<J>::init(size);
    let none = Seq::<Step<J>>::empty();
    assert(s0.run(none) == s0 && s0.admits(none));
    let one = none.push(Step::Submit(first));
    lemma_run_push(s0, none, Step::Submit(first));
    let s1 = s0.run(one);
    let two = one.push(Step::Submit(second));
    lemma_run_push(s0, one, Step::Submit(second));
    let s2 = s0.run(two);
    assert(s2.queue.pending =~= seq![first, second]);
    assert(s2.submitted =~= seq![first, second]);
    let three = two.push(Step::Receive(0));
    lemma_run_push(s0, two, Step::Receive(0));
    let s3 = s0.run(three);
    assert(s3.queue.pending =~= seq![second]);
    let four = three.push(Step::Receive(1));
    lemma_run_push(s0, three, Step::Receive(1));
    four
}

} // verus!
