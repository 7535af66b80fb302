use workpool::pool::ThreadPool;
use workpool::pool::WorkerState;

#[test]
fn construct_yields_size_live_workers() {
    let p = ThreadPool::new(1);
    assert_eq!(p.workers.len(), 1);

    let p4 = ThreadPool::new(4);
    assert_eq!(p4.workers.len(), 4);
    for w in 0..4 {
        assert_eq!(p4.workers[w].id, w);
        assert!(matches!(p4.workers[w].state, WorkerState::Running));
    }
    assert!(p4.sender_open);
    assert!(p4.pending.is_empty());
    assert_eq!(p4.submitted, 0);
}

#[test]
fn build_zero_fails() {
    let r = ThreadPool::build(0);
    assert!(r.is_err());
    let e = r.err().unwrap();
    assert_eq!(e.message, "Size should be greater than 0");
    assert_eq!(
        e.description(),
        "Error creating ThreadPool: Size should be greater than 0"
    );
}

#[test]
fn build_positive_succeeds() {
    let r = ThreadPool::build(3);
    assert!(r.is_ok());
    let p = r.ok().unwrap();
    assert_eq!(p.workers.len(), 3);
    assert!(p.workers.iter().all(|w| matches!(w.state, WorkerState::Running)));
}

#[test]
fn submission_is_fifo_and_counted() {
    let mut p = ThreadPool::new(2);
    for k in 0..5u64 {
        assert_eq!(p.execute(), k);
    }
    assert_eq!(p.submitted, 5);
    assert_eq!(p.pending, vec![0, 1, 2, 3, 4]);
}

#[test]
fn five_jobs_two_workers_complete_exactly_once() {
    let mut p = ThreadPool::new(2);
    for _ in 0..5u64 {
        p.execute();
    }
    // interleave the two workers over the five jobs
    assert_eq!(p.worker_take_job(0), 0);
    assert_eq!(p.worker_take_job(1), 1);
    p.worker_complete(1);
    assert_eq!(p.worker_take_job(1), 2);
    p.worker_complete(0);
    assert_eq!(p.worker_take_job(0), 3);
    p.worker_complete(1);
    assert_eq!(p.worker_take_job(1), 4);
    p.worker_complete(0);
    p.worker_complete(1);
    p.close_sender();
    p.worker_disconnect(0);
    p.worker_disconnect(1);
    p.teardown();
    // every index was recorded exactly once, in whatever order
    let mut got = p.completed.clone();
    got.sort();
    assert_eq!(got, vec![0, 1, 2, 3, 4]);
    assert!(p.pending.is_empty());
    assert!(p.faulted.is_empty());
    assert!(p.workers.iter().all(|w| matches!(w.state, WorkerState::Joined)));
}

#[test]
fn single_worker_serializes_jobs() {
    let mut p = ThreadPool::new(1);
    let first = p.execute();
    let second = p.execute();
    let taken = p.worker_take_job(0);
    assert_eq!(taken, first);
    // while the first job runs, the second stays queued: the sole worker
    // cannot take it before completing the first
    assert_eq!(p.pending, vec![second]);
    assert!(matches!(p.workers[0].state, WorkerState::Executing(j) if j == first));
    p.worker_complete(0);
    let taken2 = p.worker_take_job(0);
    assert_eq!(taken2, second);
    p.worker_complete(0);
    assert_eq!(p.completed, vec![first, second]);
}

#[test]
fn fault_terminates_only_its_worker() {
    let mut p = ThreadPool::new(2);
    for _ in 0..3u64 {
        p.execute();
    }
    assert_eq!(p.worker_take_job(0), 0);
    p.worker_fault(0);
    assert!(matches!(p.workers[0].state, WorkerState::Faulted));
    assert!(matches!(p.workers[1].state, WorkerState::Running));
    // the other worker keeps serving the queued jobs...
    assert_eq!(p.worker_take_job(1), 1);
    p.worker_complete(1);
    assert_eq!(p.worker_take_job(1), 2);
    p.worker_complete(1);
    // ...and jobs submitted after the fault
    let late = p.execute();
    assert_eq!(p.worker_take_job(1), late);
    p.worker_complete(1);
    assert_eq!(p.faulted, vec![0]);
    assert_eq!(p.completed, vec![1, 2, late]);
}

#[test]
fn teardown_drains_queue_before_joining() {
    let mut p = ThreadPool::new(2);
    for _ in 0..4u64 {
        p.execute();
    }
    // teardown begins: the sending half closes, but the queued jobs stay
    p.close_sender();
    assert!(!p.sender_open);
    assert_eq!(p.pending.len(), 4);
    // the workers drain the buffer before they can see the disconnect
    for _ in 0..2 {
        let j = p.worker_take_job(0);
        p.worker_complete(0);
        let k = p.worker_take_job(1);
        p.worker_complete(1);
        assert!(j < 4 && k < 4);
    }
    p.worker_disconnect(0);
    p.worker_disconnect(1);
    p.teardown();
    assert!(p.pending.is_empty());
    let mut got = p.completed.clone();
    got.sort();
    assert_eq!(got, vec![0, 1, 2, 3]);
    assert!(p.workers.iter().all(|w| matches!(w.state, WorkerState::Joined)));
}
