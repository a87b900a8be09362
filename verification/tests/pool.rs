use hello::{JobQueue, PoolCreationError, PoolPhase, ThreadPool};
use std::cell::RefCell;

fn started(size: usize) -> ThreadPool<&'static str, usize> {
    ThreadPool::build(size, "sender", |id: usize| Ok(100 + id)).unwrap()
}

#[test]
fn build_zero_fails_and_starts_nothing() {
    let calls = RefCell::new(Vec::new());
    let spawn = |id: usize| -> Result<usize, String> {
        calls.borrow_mut().push(id);
        Ok(id)
    };
    let built: Result<ThreadPool<&str, usize>, PoolCreationError> =
        ThreadPool::build(0, "sender", spawn);
    match built {
        Err(PoolCreationError::ZeroThreads(message)) => {
            assert_eq!(message, "Cant initialize ThreadPool with zero threads");
        }
        Err(PoolCreationError::OsError(_)) => panic!("wrong error"),
        Ok(_) => panic!("a pool of zero workers was built"),
    }
    assert!(calls.borrow().is_empty());
}

#[test]
fn build_starts_each_worker_once_in_order() {
    let calls = RefCell::new(Vec::new());
    let spawn = |id: usize| -> Result<usize, String> {
        calls.borrow_mut().push(id);
        Ok(id * 10)
    };
    let pool = ThreadPool::build(4, "sender", spawn).unwrap();
    assert_eq!(*calls.borrow(), vec![0, 1, 2, 3]);
    assert_eq!(pool.size(), 4);
    assert_eq!(pool.phase(), PoolPhase::Ready);
}

#[test]
fn build_succeeds_for_every_positive_size() {
    for size in 1..=64usize {
        let mut pool = started(size);
        assert_eq!(pool.size(), size);
        assert_eq!(pool.phase(), PoolPhase::Ready);
        assert_eq!(pool.begin_shutdown(), Some("sender"));
        for id in 0..size {
            assert_eq!(pool.next_join(), Some((id, 100 + id)));
        }
        assert_eq!(pool.next_join(), None);
    }
}

#[test]
fn build_stops_at_the_first_thread_that_does_not_start() {
    let calls = RefCell::new(Vec::new());
    let spawn = |id: usize| -> Result<usize, String> {
        calls.borrow_mut().push(id);
        if id == 2 {
            Err(String::from("resource exhausted"))
        } else {
            Ok(id)
        }
    };
    let built: Result<ThreadPool<&str, usize>, PoolCreationError> =
        ThreadPool::build(5, "sender", spawn);
    match built {
        Err(PoolCreationError::OsError(message)) => {
            assert_eq!(message, "Os Error: resource exhausted");
        }
        Err(PoolCreationError::ZeroThreads(_)) => panic!("wrong error"),
        Ok(_) => panic!("a pool was built though a thread did not start"),
    }
    assert_eq!(*calls.borrow(), vec![0, 1, 2]);
}

#[test]
fn build_fails_when_the_first_thread_does_not_start() {
    let built: Result<ThreadPool<u8, u8>, PoolCreationError> =
        ThreadPool::build(1, 0, |_id: usize| Err(String::from("refused")));
    match built {
        Err(PoolCreationError::OsError(message)) => assert_eq!(message, "Os Error: refused"),
        Err(PoolCreationError::ZeroThreads(_)) => panic!("wrong error"),
        Ok(_) => panic!("a pool was built though its only thread did not start"),
    }
}

#[test]
fn execute_submits_through_the_producer_handle() {
    let queue = RefCell::new(JobQueue::new());
    let pool: ThreadPool<&RefCell<JobQueue<u32>>, usize> =
        ThreadPool::build(2, &queue, |id: usize| Ok(id)).unwrap();
    let enqueue = |sender: &&RefCell<JobQueue<u32>>, job: u32| sender.borrow_mut().enqueue(job);
    assert_eq!(pool.execute(11, enqueue), Ok(()));
    assert_eq!(pool.execute(22, enqueue), Ok(()));
    assert_eq!(queue.borrow().len(), 2);
}

#[test]
fn execute_returns_what_the_queue_answers() {
    let queue = RefCell::new(JobQueue::new());
    queue.borrow_mut().close();
    let pool: ThreadPool<&RefCell<JobQueue<u32>>, usize> =
        ThreadPool::build(1, &queue, |id: usize| Ok(id)).unwrap();
    let enqueue = |sender: &&RefCell<JobQueue<u32>>, job: u32| sender.borrow_mut().enqueue(job);
    assert_eq!(pool.execute(5, enqueue), Err(5));
    assert_eq!(queue.borrow().len(), 0);
}

#[test]
fn execute_after_teardown_began_hands_the_job_back() {
    let mut pool = started(2);
    assert_eq!(pool.begin_shutdown(), Some("sender"));
    let called = RefCell::new(false);
    let enqueue = |_sender: &&str, _job: u32| -> Result<(), u32> {
        *called.borrow_mut() = true;
        Ok(())
    };
    assert_eq!(pool.execute(42, enqueue), Err(42));
    assert!(!*called.borrow());
}

#[test]
fn no_thread_is_handed_out_before_teardown_begins() {
    let mut pool = started(3);
    assert_eq!(pool.next_join(), None);
    assert_eq!(pool.phase(), PoolPhase::Ready);
    assert_eq!(pool.begin_shutdown(), Some("sender"));
    assert_eq!(pool.next_join(), Some((0, 100)));
}

#[test]
fn teardown_releases_the_sender_then_each_thread_in_order() {
    let mut pool = started(3);
    assert_eq!(pool.phase(), PoolPhase::Ready);
    assert_eq!(pool.begin_shutdown(), Some("sender"));
    assert_eq!(pool.phase(), PoolPhase::ShuttingDown);
    assert_eq!(pool.next_join(), Some((0, 100)));
    assert_eq!(pool.phase(), PoolPhase::ShuttingDown);
    assert_eq!(pool.next_join(), Some((1, 101)));
    assert_eq!(pool.phase(), PoolPhase::ShuttingDown);
    assert_eq!(pool.next_join(), Some((2, 102)));
    assert_eq!(pool.phase(), PoolPhase::Terminated);
    assert_eq!(pool.next_join(), None);
    assert_eq!(pool.size(), 3);
}

#[test]
fn second_teardown_finds_nothing_to_release() {
    let mut pool = started(2);
    assert_eq!(pool.begin_shutdown(), Some("sender"));
    let mut joined = Vec::new();
    while let Some((id, thread)) = pool.next_join() {
        joined.push((id, thread));
    }
    assert_eq!(joined, vec![(0, 100), (1, 101)]);
    assert_eq!(pool.phase(), PoolPhase::Terminated);

    assert_eq!(pool.begin_shutdown(), None);
    assert_eq!(pool.next_join(), None);
    assert_eq!(pool.phase(), PoolPhase::Terminated);
    assert_eq!(pool.size(), 2);
}

#[test]
fn teardown_begun_twice_releases_the_sender_once() {
    let mut pool = started(1);
    assert_eq!(pool.begin_shutdown(), Some("sender"));
    assert_eq!(pool.begin_shutdown(), None);
    assert_eq!(pool.next_join(), Some((0, 100)));
    assert_eq!(pool.begin_shutdown(), None);
    assert_eq!(pool.next_join(), None);
}
