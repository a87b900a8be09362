use hello::{Dequeued, JobQueue, PoolCreationError, PoolPhase, ThreadPool, WorkerState};
use std::cell::{Cell, RefCell};
use std::rc::Rc;
use std::time::{Duration, Instant};

type Job = Box<dyn FnOnce()>;
type Queue = Rc<RefCell<JobQueue<Job>>>;

/// A pool run on the test's own thread. The queue, the pool's record and the
/// state of every worker are the library's; the test decides which worker
/// moves when, so every interleaving can be played out.
struct Rig {
    queue: Queue,
    pool: ThreadPool<Queue, usize>,
    workers: Vec<WorkerState>,
    in_hand: Vec<Option<Job>>,
}

impl Rig {
    fn build(size: usize) -> Result<Rig, PoolCreationError> {
        let queue: Queue = Rc::new(RefCell::new(JobQueue::new()));
        let pool = ThreadPool::build(size, Rc::clone(&queue), |id: usize| Ok(id))?;
        let mut workers = Vec::new();
        let mut in_hand = Vec::new();
        for _ in 0..size {
            workers.push(WorkerState::Idle);
            in_hand.push(None);
        }
        Ok(Rig { queue, pool, workers, in_hand })
    }

    fn execute<F: FnOnce() + 'static>(&self, f: F) {
        let job: Job = Box::new(f);
        let enqueue = |sender: &Queue, job: Job| sender.borrow_mut().enqueue(job);
        let sent = self.pool.execute(job, enqueue);
        assert!(sent.is_ok(), "the pool did not take the job");
    }

    /// Worker `w` takes its turn at the queue, if it is idle. Says whether it
    /// received a job.
    fn receive(&mut self, w: usize) -> bool {
        if self.workers[w] != WorkerState::Idle {
            return false;
        }
        match self.workers[w].receive(&mut self.queue.borrow_mut()) {
            Dequeued::Job(job) => {
                self.in_hand[w] = Some(job);
                true
            }
            Dequeued::Empty | Dequeued::Closed => false,
        }
    }

    /// Worker `w` runs the job it has in hand, if it has one.
    fn run(&mut self, w: usize) {
        if let Some(job) = self.in_hand[w].take() {
            self.workers[w].run(job);
        }
    }

    /// Every worker in turn receives and runs, until worker `w` is gone.
    fn wait_for(&mut self, w: usize) {
        while self.workers[w] != WorkerState::Terminated {
            for each in 0..self.workers.len() {
                self.run(each);
                self.receive(each);
            }
        }
    }

    /// Closes the queue, then joins the workers in the order the pool gives.
    fn teardown(&mut self) -> Vec<usize> {
        if let Some(sender) = self.pool.begin_shutdown() {
            sender.borrow_mut().close();
        }
        let mut joined = Vec::new();
        while let Some((id, thread)) = self.pool.next_join() {
            assert_eq!(id, thread);
            self.wait_for(id);
            joined.push(id);
        }
        joined
    }
}

#[test]
fn ten_jobs_on_four_workers_all_run() {
    let mut rig = Rig::build(4).unwrap();
    let counter = Rc::new(Cell::new(0u32));
    for _ in 0..10 {
        let counter = Rc::clone(&counter);
        rig.execute(move || counter.set(counter.get() + 1));
    }
    let joined = rig.teardown();
    assert_eq!(counter.get(), 10);
    assert_eq!(joined, vec![0, 1, 2, 3]);
    assert_eq!(rig.pool.phase(), PoolPhase::Terminated);
    assert!(rig.workers.iter().all(|state| *state == WorkerState::Terminated));
}

#[test]
fn teardown_waits_for_a_slow_job() {
    let mut rig = Rig::build(2).unwrap();
    let slow_done = Rc::new(Cell::new(false));
    let fast_done = Rc::new(Cell::new(false));
    let slow = Rc::clone(&slow_done);
    rig.execute(move || {
        let started = Instant::now();
        while started.elapsed() < Duration::from_millis(200) {
            std::hint::spin_loop();
        }
        slow.set(true);
    });
    let fast = Rc::clone(&fast_done);
    rig.execute(move || fast.set(true));

    let began = Instant::now();
    rig.teardown();
    let took = began.elapsed();

    assert!(slow_done.get());
    assert!(fast_done.get());
    assert!(took >= Duration::from_millis(200));
    assert_eq!(rig.pool.phase(), PoolPhase::Terminated);
}

#[test]
fn teardown_does_not_return_while_a_job_is_in_hand() {
    let mut rig = Rig::build(2).unwrap();
    let done = Rc::new(Cell::new(false));
    let seen = Rc::clone(&done);
    rig.execute(move || seen.set(true));
    assert!(rig.receive(1));
    assert_eq!(rig.workers[1], WorkerState::Executing);

    if let Some(sender) = rig.pool.begin_shutdown() {
        sender.borrow_mut().close();
    }
    rig.receive(0);
    rig.receive(1);
    assert_eq!(rig.workers[0], WorkerState::Terminated);
    assert_eq!(rig.workers[1], WorkerState::Executing);
    assert!(!done.get());

    rig.run(1);
    assert!(done.get());
    assert_eq!(rig.workers[1], WorkerState::Idle);
    rig.receive(1);
    assert_eq!(rig.workers[1], WorkerState::Terminated);
}

#[test]
fn idle_pool_tears_down_at_once() {
    let mut rig = Rig::build(1).unwrap();
    let began = Instant::now();
    let joined = rig.teardown();
    assert!(began.elapsed() < Duration::from_secs(1));
    assert_eq!(joined, vec![0]);
    assert_eq!(rig.pool.phase(), PoolPhase::Terminated);
    assert_eq!(rig.workers[0], WorkerState::Terminated);
    assert!(rig.queue.borrow().is_empty());
}

#[test]
fn every_job_runs_exactly_once() {
    let mut rig = Rig::build(3).unwrap();
    let runs: Rc<RefCell<Vec<u32>>> = Rc::new(RefCell::new(vec![0; 25]));
    for job in 0..25usize {
        let runs = Rc::clone(&runs);
        rig.execute(move || runs.borrow_mut()[job] += 1);
        if job % 4 == 0 {
            rig.receive(job % 3);
        }
        if job % 5 == 0 {
            rig.run(job % 3);
        }
    }
    rig.teardown();
    assert_eq!(*runs.borrow(), vec![1; 25]);
}

#[test]
fn jobs_of_several_submitters_all_run() {
    let mut rig = Rig::build(2).unwrap();
    let log: Rc<RefCell<Vec<(char, u32)>>> = Rc::new(RefCell::new(Vec::new()));
    for round in 0..6u32 {
        for submitter in ['a', 'b', 'c'] {
            let log = Rc::clone(&log);
            rig.execute(move || log.borrow_mut().push((submitter, round)));
        }
        rig.receive((round % 2) as usize);
        rig.run((round % 2) as usize);
    }
    rig.teardown();
    let mut seen = log.borrow().clone();
    assert_eq!(seen.len(), 18);
    seen.sort();
    seen.dedup();
    assert_eq!(seen.len(), 18);
    for submitter in ['a', 'b', 'c'] {
        let rounds: Vec<u32> =
            log.borrow().iter().filter(|entry| entry.0 == submitter).map(|entry| entry.1).collect();
        assert_eq!(rounds, vec![0, 1, 2, 3, 4, 5]);
    }
}

#[test]
fn two_jobs_run_at_the_same_time_on_two_workers() {
    let mut rig = Rig::build(2).unwrap();
    let order: Rc<RefCell<Vec<&str>>> = Rc::new(RefCell::new(Vec::new()));
    let first = Rc::clone(&order);
    rig.execute(move || first.borrow_mut().push("first"));
    let second = Rc::clone(&order);
    rig.execute(move || second.borrow_mut().push("second"));

    assert!(rig.receive(0));
    assert!(rig.receive(1));
    assert_eq!(rig.workers[0], WorkerState::Executing);
    assert_eq!(rig.workers[1], WorkerState::Executing);
    assert!(rig.queue.borrow().is_empty());

    rig.run(1);
    assert_eq!(rig.workers[0], WorkerState::Executing);
    assert_eq!(rig.workers[1], WorkerState::Idle);
    rig.run(0);
    assert_eq!(*order.borrow(), vec!["second", "first"]);
}

#[test]
fn jobs_are_delivered_in_submission_order() {
    let mut rig = Rig::build(3).unwrap();
    let order: Rc<RefCell<Vec<u32>>> = Rc::new(RefCell::new(Vec::new()));
    for job in 0..6u32 {
        let order = Rc::clone(&order);
        rig.execute(move || order.borrow_mut().push(job));
    }
    for w in [2usize, 0, 1] {
        assert!(rig.receive(w));
        rig.run(w);
    }
    assert_eq!(*order.borrow(), vec![0, 1, 2]);
    for w in [1usize, 2, 0] {
        assert!(rig.receive(w));
    }
    for w in [0usize, 1, 2] {
        rig.run(w);
    }
    assert_eq!(*order.borrow(), vec![0, 1, 2, 5, 3, 4]);
}

#[test]
fn jobs_submitted_before_teardown_run_before_it_returns() {
    let mut rig = Rig::build(2).unwrap();
    let done = Rc::new(Cell::new(0u32));
    for _ in 0..7 {
        let done = Rc::clone(&done);
        rig.execute(move || done.set(done.get() + 1));
    }
    assert_eq!(done.get(), 0);
    assert_eq!(rig.queue.borrow().len(), 7);
    rig.teardown();
    assert_eq!(done.get(), 7);
    assert!(rig.queue.borrow().is_empty());
}

#[test]
fn job_submitted_after_teardown_began_is_not_taken() {
    let mut rig = Rig::build(1).unwrap();
    rig.teardown();
    let ran = Rc::new(Cell::new(false));
    let seen = Rc::clone(&ran);
    let job: Job = Box::new(move || seen.set(true));
    let sent = rig.pool.execute(job, |sender: &Queue, job: Job| sender.borrow_mut().enqueue(job));
    assert!(sent.is_err());
    assert!(!ran.get());
    if let Err(job) = sent {
        job();
    }
    assert!(ran.get());
}

#[test]
fn second_teardown_joins_nobody() {
    let mut rig = Rig::build(3).unwrap();
    let counter = Rc::new(Cell::new(0u32));
    for _ in 0..4 {
        let counter = Rc::clone(&counter);
        rig.execute(move || counter.set(counter.get() + 1));
    }
    assert_eq!(rig.teardown(), vec![0, 1, 2]);
    assert_eq!(rig.teardown(), Vec::<usize>::new());
    assert_eq!(counter.get(), 4);
    assert_eq!(rig.pool.phase(), PoolPhase::Terminated);
}

#[test]
fn failed_build_leaves_no_pool() {
    let queue: Queue = Rc::new(RefCell::new(JobQueue::new()));
    let built: Result<ThreadPool<Queue, usize>, PoolCreationError> =
        ThreadPool::build(3, Rc::clone(&queue), |id: usize| {
            if id < 1 {
                Ok(id)
            } else {
                Err(format!("thread {} refused", id))
            }
        });
    match built {
        Err(PoolCreationError::OsError(message)) => {
            assert_eq!(message, "Os Error: thread 1 refused");
        }
        _ => panic!("the build should have failed"),
    }
    assert_eq!(Rc::strong_count(&queue), 1);
}
