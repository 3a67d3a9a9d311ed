use rust_web_server::pool::{PoolError, ThreadPool, WorkerState};

/// Drives every waiting worker in turn until the queue is empty,
/// finishing each job at once.
fn drain_round_robin(pool: &mut ThreadPool) {
    loop {
        if pool.pending_count() == 0 {
            return;
        }
        let size = pool.worker_count();
        let mut progressed = false;
        for w in 0..size {
            if pool.pending_count() == 0 {
                break;
            }
            if let WorkerState::Waiting = pool.worker_state(w) {
                let _t = pool.take_job(w);
                pool.finish_job(w);
                progressed = true;
            }
        }
        assert!(progressed, "no waiting worker left but jobs remain queued");
    }
}

/// Walks every waiting worker out of its loop and joins it; joins
/// crashed workers too. The pool must already be shut down and drained.
fn exit_and_join_all(pool: &mut ThreadPool) {
    let size = pool.worker_count();
    for w in 0..size {
        if let WorkerState::Waiting = pool.worker_state(w) {
            pool.worker_exit(w);
        }
    }
    for w in 0..size {
        assert!(!pool.is_joined(w));
        let clean = pool.join_worker(w);
        assert!(pool.is_joined(w));
        let crashed = matches!(pool.worker_state(w), WorkerState::Crashed(_));
        assert_eq!(clean, !crashed);
    }
}

#[test]
fn construct_zero_workers_fails() {
    let r = ThreadPool::new(0);
    assert_eq!(r.unwrap_err(), PoolError::ZeroWorkers);
}

#[test]
fn construct_positive_yields_exactly_that_many_waiting_workers() {
    for size in [1usize, 2, 4, 16] {
        let pool = ThreadPool::new(size).unwrap();
        assert_eq!(pool.worker_count(), size);
        for w in 0..size {
            assert_eq!(pool.worker_state(w), WorkerState::Waiting);
        }
        assert_eq!(pool.pending_count(), 0);
        assert_eq!(pool.completed_count(), 0);
        assert!(pool.is_accepting());
    }
}

#[test]
fn submit_returns_tickets_in_order_and_queues_them() {
    let mut pool = ThreadPool::new(2).unwrap();
    for expected in 0u64..5 {
        let t = pool.execute().unwrap();
        assert_eq!(t, expected);
    }
    assert_eq!(pool.pending_count(), 5);
    assert_eq!(pool.issued_count(), 5);
}

#[test]
fn delivery_is_in_arrival_order() {
    let mut pool = ThreadPool::new(3).unwrap();
    for _ in 0..3 {
        pool.execute().unwrap();
    }
    assert_eq!(pool.take_job(2), 0);
    assert_eq!(pool.take_job(0), 1);
    assert_eq!(pool.take_job(1), 2);
    assert_eq!(pool.pending_count(), 0);
}

#[test]
fn every_job_executes_exactly_once_without_crashes() {
    let mut pool = ThreadPool::new(3).unwrap();
    let total: u64 = 40;
    for _ in 0..total {
        pool.execute().unwrap();
    }
    pool.shutdown();
    drain_round_robin(&mut pool);
    exit_and_join_all(&mut pool);
    assert_eq!(pool.completed_count() as u64, total);
    let mut seen = vec![false; total as usize];
    for i in 0..pool.completed_count() {
        let t = pool.completed_job(i) as usize;
        assert!(t < seen.len());
        assert!(!seen[t], "job executed twice");
        seen[t] = true;
    }
    assert!(seen.iter().all(|&s| s), "a job was lost");
}

#[test]
fn counter_scenario_four_workers_hundred_jobs() {
    // Four workers, a hundred jobs that each bump a counter: after a
    // full shutdown the counter reads exactly one hundred.
    let mut pool = ThreadPool::new(4).unwrap();
    for _ in 0..100 {
        pool.execute().unwrap();
    }
    pool.shutdown();
    let mut counter: u64 = 0;
    loop {
        if pool.pending_count() == 0 {
            break;
        }
        for w in 0..4 {
            if pool.pending_count() == 0 {
                break;
            }
            if let WorkerState::Waiting = pool.worker_state(w) {
                pool.take_job(w);
                counter += 1;
                pool.finish_job(w);
            }
        }
    }
    exit_and_join_all(&mut pool);
    assert_eq!(counter, 100);
    assert_eq!(pool.completed_count(), 100);
}

#[test]
fn single_worker_serializes_in_arrival_order() {
    // One worker, job A submitted before job B: A completes before B
    // may even start.
    let mut pool = ThreadPool::new(1).unwrap();
    let a = pool.execute().unwrap();
    let b = pool.execute().unwrap();
    let first = pool.take_job(0);
    assert_eq!(first, a);
    pool.finish_job(0);
    let second = pool.take_job(0);
    assert_eq!(second, b);
    pool.finish_job(0);
    assert_eq!(pool.completed_count(), 2);
    assert_eq!(pool.completed_job(0), a);
    assert_eq!(pool.completed_job(1), b);
}

#[test]
fn two_workers_may_complete_out_of_arrival_order() {
    // A later job on a fast worker finishes first; still, nothing is
    // duplicated or lost.
    let mut pool = ThreadPool::new(2).unwrap();
    let a = pool.execute().unwrap();
    let b = pool.execute().unwrap();
    assert_eq!(pool.take_job(0), a);
    assert_eq!(pool.take_job(1), b);
    pool.finish_job(1);
    pool.finish_job(0);
    assert_eq!(pool.completed_count(), 2);
    assert_eq!(pool.completed_job(0), b);
    assert_eq!(pool.completed_job(1), a);
}

#[test]
fn crashed_worker_stays_down_and_the_rest_keep_serving() {
    // Two workers; the first job faults. The ten that follow are all
    // served by the surviving worker, and the crashed one never waits
    // at the queue again.
    let mut pool = ThreadPool::new(2).unwrap();
    let faulty = pool.execute().unwrap();
    let taken = pool.take_job(0);
    assert_eq!(taken, faulty);
    pool.crash_job(0);
    assert_eq!(pool.worker_state(0), WorkerState::Crashed(faulty));
    for _ in 0..10 {
        pool.execute().unwrap();
    }
    for _ in 0..10 {
        assert_eq!(pool.worker_state(0), WorkerState::Crashed(faulty));
        pool.take_job(1);
        pool.finish_job(1);
    }
    assert_eq!(pool.completed_count(), 10);
    pool.shutdown();
    exit_and_join_all(&mut pool);
    assert_eq!(pool.worker_state(0), WorkerState::Crashed(faulty));
}

#[test]
fn submission_fails_once_every_worker_is_gone() {
    let mut pool = ThreadPool::new(2).unwrap();
    for _ in 0..2 {
        pool.execute().unwrap();
    }
    pool.take_job(0);
    pool.crash_job(0);
    pool.take_job(1);
    pool.crash_job(1);
    let before_pending = pool.pending_count();
    let before_issued = pool.issued_count();
    let r = pool.execute();
    assert_eq!(r.unwrap_err(), PoolError::WorkersGone);
    // the failed submission left the pool untouched: the job was
    // dropped, not queued
    assert_eq!(pool.pending_count(), before_pending);
    assert_eq!(pool.issued_count(), before_issued);
}

#[test]
fn shutdown_drains_queued_jobs_before_workers_exit() {
    // Two workers, five queued jobs, shutdown at once: every job
    // completes before any worker can leave its loop.
    let mut pool = ThreadPool::new(2).unwrap();
    for _ in 0..5 {
        pool.execute().unwrap();
    }
    pool.shutdown();
    assert!(!pool.is_accepting());
    drain_round_robin(&mut pool);
    assert_eq!(pool.completed_count(), 5);
    exit_and_join_all(&mut pool);
    for w in 0..2 {
        assert_eq!(pool.worker_state(w), WorkerState::Terminated);
    }
    assert_eq!(pool.completed_count(), 5);
}

#[test]
fn shutdown_twice_changes_nothing() {
    let mut pool = ThreadPool::new(3).unwrap();
    for _ in 0..4 {
        pool.execute().unwrap();
    }
    pool.shutdown();
    let pending = pool.pending_count();
    let issued = pool.issued_count();
    let completed = pool.completed_count();
    pool.shutdown();
    assert!(!pool.is_accepting());
    assert_eq!(pool.pending_count(), pending);
    assert_eq!(pool.issued_count(), issued);
    assert_eq!(pool.completed_count(), completed);
    for w in 0..3 {
        assert_eq!(pool.worker_state(w), WorkerState::Waiting);
        assert!(!pool.is_joined(w));
    }
}

#[test]
fn joins_are_recorded_once_per_worker() {
    let mut pool = ThreadPool::new(2).unwrap();
    pool.shutdown();
    pool.worker_exit(0);
    pool.worker_exit(1);
    assert!(!pool.is_joined(0));
    assert!(!pool.is_joined(1));
    assert!(pool.join_worker(0));
    assert!(pool.is_joined(0));
    assert!(!pool.is_joined(1));
    assert!(pool.join_worker(1));
    assert!(pool.is_joined(1));
}
