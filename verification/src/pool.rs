//! The verified lifecycle model of the fixed-size worker pool.
//!
//! Jobs are identified by the order of their submission: `execute` hands out
//! consecutive identifiers, and the pool records where each job currently is —
//! waiting in the FIFO queue, executing on a worker, completed, or lost to a
//! worker fault. The well-formedness invariant [`ThreadPool::wf`] states that
//! every submitted job is accounted for exactly once, and every operation of
//! the pool preserves it. The runtime that owns the actual execution contexts
//! drives these transitions: it performs the blocking receive, runs the job,
//! and reports each event back as one operation of this model.

use vstd::prelude::*;
use vstd::pervasive::VecAdditionalExecFns;

use crate::counting::lemma_sum_ones;
use crate::counting::lemma_sum_push;
use crate::counting::lemma_sum_update;
use crate::counting::lemma_sum_zero;
use crate::counting::sum_over;

verus! {

/// Where one worker stands in its lifecycle.
#[derive(Clone, Copy, PartialEq, Eq, Structural, Debug)]
pub enum WorkerState {
    /// Ready to take the next job from the queue.
    Running,
    /// Currently executing the job with the given identifier.
    Executing(u64),
    /// Observed the disconnect signal on an empty, sender-less queue and left
    /// its receive loop; the only legitimate exit.
    Stopped,
    /// A fault inside a job ended this worker's loop; it serves no further
    /// jobs, and the pool continues with one live worker fewer.
    Faulted,
    /// Its execution context has been waited for by teardown.
    Joined,
}

/// One worker: an ordinal identity bound to one long-lived execution context.
#[derive(Clone, Copy, PartialEq, Eq, Structural, Debug)]
pub struct Worker {
    pub id: usize,
    pub state: WorkerState,
}

/// One when worker `w` is executing job `j`, zero otherwise.
pub open spec fn executing_one(w: Worker, j: u64) -> nat {
    match w.state {
        WorkerState::Executing(k) => if k == j {
            1
        } else {
            0
        },
        _ => 0,
    }
}

/// How many workers of `ws` are executing job `j`.
pub open spec fn executing_count(ws: Seq<Worker>, j: u64) -> nat {
    sum_over(ws, |w: Worker| executing_one(w, j))
}

/// A worker that still serves jobs: running or executing.
pub open spec fn is_live(w: Worker) -> bool {
    w.state is Running || w.state is Executing
}

/// How many workers of `ws` still serve jobs.
pub open spec fn live_count(ws: Seq<Worker>) -> nat {
    sum_over(ws, |w: Worker| if is_live(w) { 1nat } else { 0nat })
}

/// A worker that exited its loop legitimately (and was possibly joined).
pub open spec fn retired(w: Worker) -> bool {
    w.state is Stopped || w.state is Joined
}

/// How many times `j` occurs in `s`.
pub open spec fn count_of(s: Seq<u64>, j: u64) -> nat {
    sum_over(s, |x: u64| if x == j { 1nat } else { 0nat })
}

/// An element of `s` is counted at least once.
pub proof fn lemma_count_of_positive(s: Seq<u64>, k: int)
    requires
        0 <= k < s.len(),
    ensures
        count_of(s, s[k]) >= 1,
    decreases s.len(),
{
    if k > 0 {
        lemma_count_of_positive(s.skip(1), k - 1);
        assert(s.skip(1)[k - 1] == s[k]);
    }
}

/// The identifier of the job a worker is executing (0 when it is not).
pub open spec fn job_of(w: Worker) -> u64 {
    match w.state {
        WorkerState::Executing(j) => j,
        _ => 0,
    }
}

impl Worker {
    /// A freshly spawned worker: bound to its ordinal, blocked on the queue.
    pub fn new(id: usize) -> (w: Worker)
        ensures
            w.id == id,
            w.state is Running,
    {
        Worker { id, state: WorkerState::Running }
    }
}

/// The error returned by the recoverable construction entry point when the
/// requested pool size is zero.
#[derive(Debug)]
pub struct PoolCreationError {
    pub message: String,
}

impl PoolCreationError {
    /// Wraps a description of the construction failure.
    pub fn from(message: &str) -> (e: PoolCreationError)
        ensures
            e.message@ == message@,
    {
        PoolCreationError { message: message.to_owned() }
    }

    /// The full description of the failure, as a single line.
    pub fn description(&self) -> (d: String)
        ensures
            d@ == "Error creating ThreadPool: "@ + self.message@,
    {
        let mut d = String::new();
        d.append("Error creating ThreadPool: ");
        d.append(self.message.as_str());
        d
    }
}

/// The pool: a fixed set of workers, the FIFO queue of submitted jobs, and
/// the records of what became of every job.
pub struct ThreadPool {
    /// The workers, in pool order; the length is fixed at construction.
    pub workers: Vec<Worker>,
    /// Whether the sending half of the queue is still open. Closing it is the
    /// first step of teardown: no further job can be enqueued, and a worker
    /// that finds the queue empty afterwards receives the disconnect signal.
    pub sender_open: bool,
    /// Identifiers of the jobs enqueued but not yet taken, in FIFO order.
    pub pending: Vec<u64>,
    /// How many jobs were ever submitted; also the next identifier.
    pub submitted: u64,
    /// Identifiers of the jobs that ran to completion, in completion order.
    pub completed: Vec<u64>,
    /// Identifiers of the jobs whose fault ended their worker.
    pub faulted: Vec<u64>,
}

impl ThreadPool {
    /// How often job `j` is present anywhere in the pool: queued, executing,
    /// completed, or recorded as a fault.
    pub open spec fn job_count(self, j: u64) -> nat {
        count_of(self.pending@, j) + executing_count(self.workers@, j) + count_of(
            self.completed@,
            j,
        ) + count_of(self.faulted@, j)
    }

    /// Each worker carries the ordinal it was created with.
    pub open spec fn ids_ok(self) -> bool {
        forall|i: int|
            0 <= i < self.workers@.len() ==> (#[trigger] self.workers@[i]).id == i
    }

    /// Exactly-once accounting: every submitted job is somewhere, exactly
    /// once; no other identifier occurs anywhere.
    pub open spec fn accounted_once(self) -> bool {
        forall|j: u64|
            #[trigger] self.job_count(j) == if j < self.submitted {
                1nat
            } else {
                0nat
            }
    }

    /// A worker exits its loop only on a disconnect from an empty, sender-less
    /// queue; so once any worker has retired, the sending half is closed and
    /// the queue has been drained.
    pub open spec fn drained_on_retire(self) -> bool {
        (exists|i: int| 0 <= i < self.workers@.len() && retired(#[trigger] self.workers@[i]))
            ==> (!self.sender_open && self.pending@.len() == 0)
    }

    /// The queue buffer holds the jobs in submission order: FIFO across the
    /// channel.
    pub open spec fn pending_in_submission_order(self) -> bool {
        forall|k1: int, k2: int|
            0 <= k1 < k2 < self.pending@.len() ==> #[trigger] self.pending@[k1]
                < #[trigger] self.pending@[k2]
    }

    /// Well-formedness: established by both construction entry points and
    /// preserved by every operation.
    pub open spec fn wf(self) -> bool {
        &&& self.workers@.len() > 0
        &&& self.ids_ok()
        &&& self.accounted_once()
        &&& self.drained_on_retire()
        &&& self.pending_in_submission_order()
    }

    /// Everything both constructors guarantee of a fresh pool.
    pub open spec fn fresh(self, size: usize) -> bool {
        &&& self.wf()
        &&& self.workers@.len() == size
        &&& live_count(self.workers@) == size
        &&& (forall|i: int|
            0 <= i < self.workers@.len() ==> (#[trigger] self.workers@[i]).state is Running)
        &&& self.sender_open
        &&& self.pending@.len() == 0
        &&& self.submitted == 0
        &&& self.completed@.len() == 0
        &&& self.faulted@.len() == 0
    }

    /// Create a new ThreadPool.
    ///
    /// The size is the number of workers in the pool. This is the strict
    /// construction entry point: a size of zero is a precondition violation,
    /// so callers outside verified code must check the size first and treat a
    /// zero as fatal.
    pub fn new(size: usize) -> (pool: ThreadPool)
        requires
            size > 0,
        ensures
            pool.fresh(size),
    {
        let workers = Self::create_workers(size);
        let pool = ThreadPool {
            workers,
            sender_open: true,
            pending: Vec::new(),
            submitted: 0,
            completed: Vec::new(),
            faulted: Vec::new(),
        };
        proof {
            pool.lemma_fresh(size);
        }
        pool
    }

    /// Builds a new ThreadPool.
    ///
    /// The size is the number of workers in the pool. This is the recoverable
    /// construction entry point: a size of zero yields an error value rather
    /// than a fault.
    pub fn build(size: usize) -> (pool: Result<ThreadPool, PoolCreationError>)
        ensures
            match pool {
                Ok(p) => size > 0 && p.fresh(size),
                Err(e) => size == 0 && e.message@ == "Size should be greater than 0"@,
            },
    {
        if size == 0 {
            return Err(PoolCreationError::from("Size should be greater than 0"));
        }
        Ok(Self::new(size))
    }

    /// Proves that a pool made of `size` running workers and empty records is
    /// well-formed and fresh.
    proof fn lemma_fresh(self, size: usize)
        requires
            size > 0,
            self.workers@.len() == size,
            forall|i: int|
                0 <= i < self.workers@.len() ==> (#[trigger] self.workers@[i]).id == i
                    && self.workers@[i].state is Running,
            self.sender_open,
            self.pending@.len() == 0,
            self.submitted == 0,
            self.completed@.len() == 0,
            self.faulted@.len() == 0,
        ensures
            self.fresh(size),
    {
        assert forall|j: u64| #[trigger] self.job_count(j) == 0nat by {
            lemma_sum_zero(self.workers@, |w: Worker| executing_one(w, j));
        }
        lemma_sum_ones(self.workers@, |w: Worker| if is_live(w) { 1nat } else { 0nat });
    }

    fn create_workers(size: usize) -> (workers: Vec<Worker>)
        ensures
            workers@.len() == size,
            forall|i: int|
                0 <= i < size ==> (#[trigger] workers@[i]).id == i && workers@[i].state
                    is Running,
    {
        let mut workers: Vec<Worker> = Vec::with_capacity(size);
        let mut id: usize = 0;
        while id < size
            invariant
                id <= size,
                workers@.len() == id,
                forall|i: int|
                    0 <= i < id ==> (#[trigger] workers@[i]).id == i && workers@[i].state
                        is Running,
            decreases size - id,
        {
            workers.push(Worker::new(id));
            id = id + 1;
        }
        workers
    }

    /// Submits one job to the pool and returns its identifier: the job is
    /// appended to the queue and the submitter does not wait for it. The
    /// sending half must still be open — submitting after teardown has begun
    /// is an invariant violation, not a recoverable condition, so unverified
    /// callers must check it and fail.
    pub fn execute(&mut self) -> (job: u64)
        requires
            old(self).wf(),
            old(self).sender_open,
            old(self).submitted < u64::MAX,
        ensures
            final(self).wf(),
            job == old(self).submitted,
            final(self).submitted == old(self).submitted + 1,
            final(self).pending@ == old(self).pending@.push(job),
            final(self).workers@ == old(self).workers@,
            final(self).sender_open,
            final(self).completed@ == old(self).completed@,
            final(self).faulted@ == old(self).faulted@,
    {
        let job = self.submitted;
        self.pending.push(job);
        self.submitted = self.submitted + 1;
        proof {
            assert forall|j: u64|
                #[trigger] self.job_count(j) == (if j < self.submitted {
                    1nat
                } else {
                    0nat
                }) by {
                lemma_sum_push(
                    old(self).pending@,
                    job,
                    |x: u64| if x == j {
                        1nat
                    } else {
                        0nat
                    },
                );
                assert(old(self).job_count(j) == if j < old(self).submitted {
                    1nat
                } else {
                    0nat
                });
            }
            assert(self.drained_on_retire()) by {
                if exists|i: int|
                    0 <= i < self.workers@.len() && retired(#[trigger] self.workers@[i]) {
                    assert(!old(self).sender_open);
                    assert(false);
                }
            }
            assert forall|k1: int, k2: int|
                0 <= k1 < k2 < self.pending@.len() implies #[trigger] self.pending@[k1]
                < #[trigger] self.pending@[k2] by {
                assert(self.pending@[k1] == old(self).pending@[k1]);
                if k2 < self.pending@.len() - 1 {
                    assert(self.pending@[k2] == old(self).pending@[k2]);
                } else {
                    let v = old(self).pending@[k1];
                    lemma_count_of_positive(old(self).pending@, k1);
                    assert(old(self).job_count(v) == if v < old(self).submitted {
                        1nat
                    } else {
                        0nat
                    });
                    assert(v < old(self).submitted);
                    assert(self.pending@[k2] == job);
                }
            }
        }
        job
    }

    /// A running worker acquires the receive lock and dequeues: it takes the
    /// job at the head of the queue (delivery is FIFO out of the buffer) and
    /// starts executing it.
    pub fn worker_take_job(&mut self, w: usize) -> (job: u64)
        requires
            old(self).wf(),
            w < old(self).workers@.len(),
            old(self).workers@[w as int].state is Running,
            old(self).pending@.len() > 0,
        ensures
            final(self).wf(),
            job == old(self).pending@[0],
            final(self).pending@ == old(self).pending@.skip(1),
            final(self).workers@ == old(self).workers@.update(
                w as int,
                Worker { id: w, state: WorkerState::Executing(job) },
            ),
            final(self).sender_open == old(self).sender_open,
            final(self).submitted == old(self).submitted,
            final(self).completed@ == old(self).completed@,
            final(self).faulted@ == old(self).faulted@,
            live_count(final(self).workers@) == live_count(old(self).workers@),
    {
        let job = self.pending.remove(0);
        self.workers.set(w, Worker { id: w, state: WorkerState::Executing(job) });
        proof {
            let nw = Worker { id: w as usize, state: WorkerState::Executing(job) };
            assert(old(self).pending@.remove(0) =~= old(self).pending@.skip(1));
            assert forall|j: u64|
                #[trigger] self.job_count(j) == (if j < self.submitted {
                    1nat
                } else {
                    0nat
                }) by {
                assert(count_of(old(self).pending@, j) == (if old(self).pending@[0] == j {
                    1nat
                } else {
                    0nat
                }) + count_of(old(self).pending@.skip(1), j));
                lemma_sum_update(
                    old(self).workers@,
                    w as int,
                    nw,
                    |ww: Worker| executing_one(ww, j),
                );
                assert(old(self).job_count(j) == if j < old(self).submitted {
                    1nat
                } else {
                    0nat
                });
            }
            assert(self.drained_on_retire()) by {
                if exists|i: int|
                    0 <= i < self.workers@.len() && retired(#[trigger] self.workers@[i]) {
                    let i = choose|i: int|
                        0 <= i < self.workers@.len() && retired(#[trigger] self.workers@[i]);
                    assert(i != w);
                    assert(retired(old(self).workers@[i]));
                    assert(old(self).pending@.len() == 0);
                    assert(false);
                }
            }
            lemma_sum_update(
                old(self).workers@,
                w as int,
                nw,
                |ww: Worker| if is_live(ww) {
                    1nat
                } else {
                    0nat
                },
            );
        }
        job
    }

    /// The worker finishes its current job normally: the job is recorded as
    /// completed and the worker goes back to waiting on the queue.
    pub fn worker_complete(&mut self, w: usize)
        requires
            old(self).wf(),
            w < old(self).workers@.len(),
            old(self).workers@[w as int].state is Executing,
        ensures
            final(self).wf(),
            final(self).completed@ == old(self).completed@.push(
                job_of(old(self).workers@[w as int]),
            ),
            final(self).workers@ == old(self).workers@.update(
                w as int,
                Worker { id: w, state: WorkerState::Running },
            ),
            final(self).sender_open == old(self).sender_open,
            final(self).pending@ == old(self).pending@,
            final(self).submitted == old(self).submitted,
            final(self).faulted@ == old(self).faulted@,
            live_count(final(self).workers@) == live_count(old(self).workers@),
    {
        let job = match self.workers[w].state {
            WorkerState::Executing(j) => j,
            _ => 0,
        };
        self.completed.push(job);
        self.workers.set(w, Worker { id: w, state: WorkerState::Running });
        proof {
            self.lemma_worker_leaves_job(*old(self), w, WorkerState::Running);
        }
    }

    /// A fault inside the job ends the owning worker's loop: the job is
    /// recorded as faulted and the worker retires from service. Nothing else
    /// changes — the queue, the sending half and every other worker are
    /// untouched, so the pool keeps serving jobs with one live worker fewer.
    pub fn worker_fault(&mut self, w: usize)
        requires
            old(self).wf(),
            w < old(self).workers@.len(),
            old(self).workers@[w as int].state is Executing,
        ensures
            final(self).wf(),
            final(self).faulted@ == old(self).faulted@.push(job_of(old(self).workers@[w as int])),
            final(self).workers@ == old(self).workers@.update(
                w as int,
                Worker { id: w, state: WorkerState::Faulted },
            ),
            forall|i: int|
                0 <= i < old(self).workers@.len() && i != w
                    ==> final(self).workers@[i] == old(self).workers@[i],
            final(self).sender_open == old(self).sender_open,
            final(self).pending@ == old(self).pending@,
            final(self).submitted == old(self).submitted,
            final(self).completed@ == old(self).completed@,
            live_count(final(self).workers@) + 1 == live_count(old(self).workers@),
    {
        let job = match self.workers[w].state {
            WorkerState::Executing(j) => j,
            _ => 0,
        };
        self.faulted.push(job);
        self.workers.set(w, Worker { id: w, state: WorkerState::Faulted });
        proof {
            self.lemma_worker_leaves_job(*old(self), w, WorkerState::Faulted);
        }
    }

    /// Common proof for the two ways a worker leaves its current job: the job
    /// moves from the worker to exactly one of the records, so the accounting
    /// and the drain property are preserved.
    proof fn lemma_worker_leaves_job(self, prev: ThreadPool, w: usize, ns: WorkerState)
        requires
            prev.wf(),
            w < prev.workers@.len(),
            prev.workers@[w as int].state is Executing,
            !(ns is Executing),
            !retired(Worker { id: w, state: ns }),
            self.workers@ == prev.workers@.update(w as int, Worker { id: w, state: ns }),
            self.pending@ == prev.pending@,
            self.sender_open == prev.sender_open,
            self.submitted == prev.submitted,
            ({
                ||| (self.completed@ == prev.completed@.push(job_of(prev.workers@[w as int]))
                    && self.faulted@ == prev.faulted@)
                ||| (self.faulted@ == prev.faulted@.push(job_of(prev.workers@[w as int]))
                    && self.completed@ == prev.completed@)
            }),
        ensures
            self.wf(),
            live_count(self.workers@) + (if is_live(Worker { id: w, state: ns }) {
                0nat
            } else {
                1nat
            }) == live_count(prev.workers@),
    {
        let jb = job_of(prev.workers@[w as int]);
        let nw = Worker { id: w as usize, state: ns };
        assert forall|j: u64|
            #[trigger] self.job_count(j) == (if j < self.submitted {
                1nat
            } else {
                0nat
            }) by {
            lemma_sum_update(prev.workers@, w as int, nw, |ww: Worker| executing_one(ww, j));
            if self.completed@ == prev.completed@.push(jb) && self.faulted@ == prev.faulted@ {
                lemma_sum_push(
                    prev.completed@,
                    jb,
                    |x: u64| if x == j {
                        1nat
                    } else {
                        0nat
                    },
                );
            } else {
                lemma_sum_push(
                    prev.faulted@,
                    jb,
                    |x: u64| if x == j {
                        1nat
                    } else {
                        0nat
                    },
                );
            }
            assert(prev.job_count(j) == if j < prev.submitted {
                1nat
            } else {
                0nat
            });
        }
        assert(self.drained_on_retire()) by {
            if exists|i: int|
                0 <= i < self.workers@.len() && retired(#[trigger] self.workers@[i]) {
                let i = choose|i: int|
                    0 <= i < self.workers@.len() && retired(#[trigger] self.workers@[i]);
                assert(i != w);
                assert(retired(prev.workers@[i]));
            }
        }
        lemma_sum_update(
            prev.workers@,
            w as int,
            nw,
            |ww: Worker| if is_live(ww) {
                1nat
            } else {
                0nat
            },
        );
    }

    /// The first step of teardown: close the sending half of the queue, so
    /// that no further job can be enqueued and blocked workers receive the
    /// disconnect signal once the buffer is drained.
    pub fn close_sender(&mut self)
        requires
            old(self).wf(),
        ensures
            final(self).wf(),
            !final(self).sender_open,
            final(self).workers@ == old(self).workers@,
            final(self).pending@ == old(self).pending@,
            final(self).submitted == old(self).submitted,
            final(self).completed@ == old(self).completed@,
            final(self).faulted@ == old(self).faulted@,
    {
        self.sender_open = false;
        proof {
            assert forall|j: u64|
                #[trigger] self.job_count(j) == (if j < self.submitted {
                    1nat
                } else {
                    0nat
                }) by {
                assert(old(self).job_count(j) == if j < old(self).submitted {
                    1nat
                } else {
                    0nat
                });
            }
            assert(self.drained_on_retire()) by {
                if exists|i: int|
                    0 <= i < self.workers@.len() && retired(#[trigger] self.workers@[i]) {
                    let i = choose|i: int|
                        0 <= i < self.workers@.len() && retired(#[trigger] self.workers@[i]);
                    assert(retired(old(self).workers@[i]));
                }
            }
        }
    }

    /// A running worker receives the disconnect signal — possible only once
    /// the sending half is closed and the queue is empty, the sole legitimate
    /// exit — and leaves its receive loop.
    pub fn worker_disconnect(&mut self, w: usize)
        requires
            old(self).wf(),
            w < old(self).workers@.len(),
            old(self).workers@[w as int].state is Running,
            !old(self).sender_open,
            old(self).pending@.len() == 0,
        ensures
            final(self).wf(),
            final(self).workers@ == old(self).workers@.update(
                w as int,
                Worker { id: w, state: WorkerState::Stopped },
            ),
            !final(self).sender_open,
            final(self).pending@ == old(self).pending@,
            final(self).submitted == old(self).submitted,
            final(self).completed@ == old(self).completed@,
            final(self).faulted@ == old(self).faulted@,
            live_count(final(self).workers@) + 1 == live_count(old(self).workers@),
    {
        self.workers.set(w, Worker { id: w, state: WorkerState::Stopped });
        proof {
            let nw = Worker { id: w as usize, state: WorkerState::Stopped };
            assert forall|j: u64|
                #[trigger] self.job_count(j) == (if j < self.submitted {
                    1nat
                } else {
                    0nat
                }) by {
                lemma_sum_update(
                    old(self).workers@,
                    w as int,
                    nw,
                    |ww: Worker| executing_one(ww, j),
                );
                assert(old(self).job_count(j) == if j < old(self).submitted {
                    1nat
                } else {
                    0nat
                });
            }
            lemma_sum_update(
                old(self).workers@,
                w as int,
                nw,
                |ww: Worker| if is_live(ww) {
                    1nat
                } else {
                    0nat
                },
            );
        }
    }

    /// Teardown waits for one worker's execution context to finish. Workers
    /// are joined in pool order, and only a worker that exited its loop
    /// legitimately can be joined — joining a faulted worker is a teardown
    /// fault, propagated by the unverified caller, not modelled here.
    pub fn join_worker(&mut self, w: usize)
        requires
            old(self).wf(),
            w < old(self).workers@.len(),
            old(self).workers@[w as int].state is Stopped,
            forall|i: int| 0 <= i < w ==> (#[trigger] old(self).workers@[i]).state is Joined,
        ensures
            final(self).wf(),
            final(self).workers@ == old(self).workers@.update(
                w as int,
                Worker { id: w, state: WorkerState::Joined },
            ),
            final(self).sender_open == old(self).sender_open,
            final(self).pending@ == old(self).pending@,
            final(self).submitted == old(self).submitted,
            final(self).completed@ == old(self).completed@,
            final(self).faulted@ == old(self).faulted@,
    {
        self.workers.set(w, Worker { id: w, state: WorkerState::Joined });
        proof {
            let nw = Worker { id: w as usize, state: WorkerState::Joined };
            assert forall|j: u64|
                #[trigger] self.job_count(j) == (if j < self.submitted {
                    1nat
                } else {
                    0nat
                }) by {
                lemma_sum_update(
                    old(self).workers@,
                    w as int,
                    nw,
                    |ww: Worker| executing_one(ww, j),
                );
                assert(old(self).job_count(j) == if j < old(self).submitted {
                    1nat
                } else {
                    0nat
                });
            }
            assert(retired(old(self).workers@[w as int]));
            assert(old(self).pending@.len() == 0);
        }
    }

    /// The whole ordered teardown, once every worker has observed the
    /// disconnect signal: close the sending half (already closed by then —
    /// a worker only stops on a sender-less queue), then join every worker in
    /// pool order. Only after the last join does teardown return, and the
    /// completion records show that nothing submitted was left behind.
    pub fn teardown(&mut self)
        requires
            old(self).wf(),
            forall|i: int|
                0 <= i < old(self).workers@.len()
                    ==> (#[trigger] old(self).workers@[i]).state is Stopped,
        ensures
            final(self).wf(),
            !final(self).sender_open,
            final(self).workers@.len() == old(self).workers@.len(),
            forall|i: int|
                0 <= i < final(self).workers@.len()
                    ==> (#[trigger] final(self).workers@[i]).state is Joined,
            final(self).pending@.len() == 0,
            final(self).submitted == old(self).submitted,
            final(self).completed@ == old(self).completed@,
            final(self).faulted@ == old(self).faulted@,
            forall|j: u64|
                j < final(self).submitted ==> #[trigger] count_of(final(self).completed@, j)
                    + count_of(final(self).faulted@, j) == 1,
    {
        self.close_sender();
        let n = self.workers.len();
        let mut w: usize = 0;
        while w < n
            invariant
                self.wf(),
                n == self.workers@.len(),
                w <= n,
                !self.sender_open,
                forall|i: int| 0 <= i < w ==> (#[trigger] self.workers@[i]).state is Joined,
                forall|i: int| w <= i < n ==> (#[trigger] self.workers@[i]).state is Stopped,
                self.pending@ == old(self).pending@,
                self.submitted == old(self).submitted,
                self.completed@ == old(self).completed@,
                self.faulted@ == old(self).faulted@,
            decreases n - w,
        {
            self.join_worker(w);
            w = w + 1;
        }
        proof {
            assert(retired(self.workers@[0]));
            assert forall|j: u64| j < self.submitted implies #[trigger] count_of(
                self.completed@,
                j,
            ) + count_of(self.faulted@, j) == 1 by {
                lemma_no_job_abandoned(*self, j);
            }
        }
    }
}

/// Exactly-once accounting, the queue's correctness stated of every
/// well-formed pool state: a submitted job is present exactly once across the
/// queue, the executing workers and the records — never lost, never
/// duplicated, completed at most once — and no unsubmitted identifier appears
/// anywhere.
pub proof fn lemma_exactly_once(p: ThreadPool, j: u64)
    requires
        p.wf(),
    ensures
        j < p.submitted ==> p.job_count(j) == 1,
        j >= p.submitted ==> p.job_count(j) == 0,
        count_of(p.completed@, j) <= 1,
        count_of(p.pending@, j) <= 1,
{
    assert(p.job_count(j) == if j < p.submitted {
        1nat
    } else {
        0nat
    });
}

/// Teardown completeness: once every worker has retired legitimately, the
/// queue is empty and every job ever submitted was either completed or ended
/// its worker; when no worker faulted, every submitted job ran to completion —
/// no job is abandoned mid-queue.
pub proof fn lemma_no_job_abandoned(p: ThreadPool, j: u64)
    requires
        p.wf(),
        forall|i: int| 0 <= i < p.workers@.len() ==> retired(#[trigger] p.workers@[i]),
        j < p.submitted,
    ensures
        p.pending@.len() == 0,
        count_of(p.completed@, j) + count_of(p.faulted@, j) == 1,
        p.faulted@.len() == 0 ==> count_of(p.completed@, j) == 1,
{
    assert(retired(p.workers@[0]));
    lemma_sum_zero(p.workers@, |w: Worker| executing_one(w, j));
    assert(p.job_count(j) == 1);
}

} // verus!
