//! The worker-pool state machine and its invariants.

use vstd::prelude::*;

verus! {

/// The lifecycle of one worker.
///
/// A worker starts `Waiting`, alternates between `Waiting` and
/// `Executing` while jobs arrive, and leaves the loop exactly once:
/// either it sees the queue closed and empty and becomes `Terminated`,
/// or a job faults under it and it becomes `Crashed`. Neither final
/// state is ever left again.
#[derive(Clone, Copy, Debug, PartialEq, Eq, Structural)]
pub enum WorkerState {
    /// Blocked on the shared queue, ready to take the next job.
    Waiting,
    /// Running the job with this ticket.
    Executing(u64),
    /// Exited normally after the queue was closed and drained.
    Terminated,
    /// Killed by a fault while running the job with this ticket;
    /// the job is lost and the worker is never replaced.
    Crashed(u64),
}

impl WorkerState {
    /// The ticket this worker is responsible for, if any.
    pub open spec fn holds(self, t: u64) -> bool {
        self == WorkerState::Executing(t) || self == WorkerState::Crashed(t)
    }

    /// A live worker still shares the consumer end of the queue.
    pub open spec fn is_live(self) -> bool {
        self is Waiting || self is Executing
    }

    /// The ticket an executing or crashed worker is responsible for.
    pub open spec fn job(self) -> u64
        recommends
            self is Executing || self is Crashed,
    {
        match self {
            WorkerState::Executing(t) => t,
            WorkerState::Crashed(t) => t,
            _ => 0,
        }
    }

    /// Executable test matching `is_live`.
    pub fn live(&self) -> (r: bool)
        ensures
            r == self.is_live(),
    {
        match self {
            WorkerState::Waiting => true,
            WorkerState::Executing(_) => true,
            WorkerState::Terminated => false,
            WorkerState::Crashed(_) => false,
        }
    }
}

/// The errors a pool operation can report.
#[derive(Clone, Copy, Debug, PartialEq, Eq, Structural)]
pub enum PoolError {
    /// Construction was asked for zero workers.
    ZeroWorkers,
    /// A submission found no live worker left to receive it.
    WorkersGone,
}

/// The pool: a fixed set of workers, the shared job queue, and the
/// record of what has been submitted, completed and joined.
///
/// Jobs are named by their ticket: the `n`-th submission gets ticket
/// `n`. The queue holds the tickets that have been submitted but not
/// yet taken by any worker, oldest first.
#[derive(Debug)]
pub struct ThreadPool {
    workers: Vec<WorkerState>,
    queue: Vec<u64>,
    next_ticket: u64,
    completed: Vec<u64>,
    producer_open: bool,
    joined: Vec<bool>,
}

impl ThreadPool {
    /// The state of every worker, by id.
    pub closed spec fn workers(self) -> Seq<WorkerState> {
        self.workers@
    }

    /// The tickets submitted but not yet taken, oldest first.
    pub closed spec fn queued(self) -> Seq<u64> {
        self.queue@
    }

    /// How many jobs have ever been submitted.
    pub closed spec fn issued(self) -> u64 {
        self.next_ticket
    }

    /// The tickets of completed jobs, in completion order.
    pub closed spec fn completed(self) -> Seq<u64> {
        self.completed@
    }

    /// Whether the producer side of the queue is still open.
    pub closed spec fn accepting(self) -> bool {
        self.producer_open
    }

    /// Which workers have been joined, by id.
    pub closed spec fn joined(self) -> Seq<bool> {
        self.joined@
    }

    /// The ticket at the head of the queue; every ticket below it has
    /// already been handed to some worker.
    pub open spec fn first_queued(self) -> int {
        self.issued() - self.queued().len()
    }

    /// Ticket `t` is still waiting in the queue.
    pub open spec fn pending(self, t: u64) -> bool {
        self.queued().contains(t)
    }

    /// Ticket `t` is in some worker's hands (running, or lost to a crash).
    pub open spec fn held(self, t: u64) -> bool {
        exists|w: int|
            0 <= w < self.workers().len() && #[trigger] self.workers()[w].holds(t)
    }

    /// Ticket `t` has run to completion.
    pub open spec fn executed(self, t: u64) -> bool {
        self.completed().contains(t)
    }

    /// Some worker can still receive a job.
    pub open spec fn some_live(self) -> bool {
        exists|w: int|
            0 <= w < self.workers().len() && (#[trigger] self.workers()[w]).is_live()
    }

    /// The queue holds exactly the tickets `[first_queued, issued)`,
    /// in arrival order: the queue itself never reorders, duplicates
    /// or drops a job.
    pub open spec fn queue_contiguous(self) -> bool {
        &&& self.queued().len() <= self.issued()
        &&& forall|i: int|
            0 <= i < self.queued().len() ==> #[trigger] self.queued()[i] == self.first_queued() + i
    }

    /// Everything completed or held was taken from the queue head:
    /// its ticket lies below every ticket still queued.
    pub open spec fn delivered_below_queue(self) -> bool {
        &&& forall|i: int|
            0 <= i < self.completed().len() ==> #[trigger] self.completed()[i] < self.first_queued()
        &&& forall|w: int, t: u64|
            0 <= w < self.workers().len() && #[trigger] self.workers()[w].holds(t)
                ==> t < self.first_queued()
    }

    /// No delivered job disappears: every ticket handed out is either
    /// completed or accounted to exactly the worker that took it.
    pub open spec fn none_lost(self) -> bool {
        forall|t: u64|
            t < self.first_queued() ==> #[trigger] self.executed(t) || self.held(t)
    }

    /// No job runs twice: completions are distinct, a held ticket is
    /// not completed, and no two workers hold the same ticket.
    pub open spec fn at_most_once(self) -> bool {
        &&& self.completed().no_duplicates()
        &&& forall|w: int, t: u64|
            0 <= w < self.workers().len() && #[trigger] self.workers()[w].holds(t)
                ==> !self.executed(t)
        &&& forall|w1: int, w2: int, t: u64|
            0 <= w1 < self.workers().len() && 0 <= w2 < self.workers().len()
                && #[trigger] self.workers()[w1].holds(t)
                && #[trigger] self.workers()[w2].holds(t) ==> w1 == w2
    }

    /// A worker terminates normally only once the producer side is
    /// closed and the queue has drained.
    pub open spec fn terminated_after_drain(self) -> bool {
        forall|w: int|
            0 <= w < self.workers().len() && (#[trigger] self.workers()[w]) is Terminated
                ==> self.queued().len() == 0 && !self.accepting()
    }

    /// Joins happen only during shutdown, only on workers whose thread
    /// has already ended.
    pub open spec fn joined_wf(self) -> bool {
        &&& self.joined().len() == self.workers().len()
        &&& forall|w: int|
            0 <= w < self.joined().len() && #[trigger] self.joined()[w]
                ==> !self.accepting() && !self.workers()[w].is_live()
    }

    /// With a single worker the pool is a serial executor: the `i`-th
    /// completion is exactly the `i`-th submission, the held ticket is
    /// always the next one due, and nothing is skipped.
    pub open spec fn single_worker_ordered(self) -> bool {
        self.workers().len() == 1 ==> {
            &&& forall|i: int|
                0 <= i < self.completed().len() ==> #[trigger] self.completed()[i] == i as u64
            &&& forall|t: u64|
                (#[trigger] self.workers()[0].holds(t))
                    ==> t == self.completed().len() && self.completed().len() + 1
                    == self.first_queued()
            &&& (self.workers()[0] is Waiting || self.workers()[0] is Terminated)
                ==> self.completed().len() == self.first_queued()
        }
    }

    /// The pool invariant: established by construction, preserved by
    /// every transition.
    pub open spec fn wf(self) -> bool {
        &&& self.workers().len() > 0
        &&& self.queue_contiguous()
        &&& self.delivered_below_queue()
        &&& self.none_lost()
        &&& self.at_most_once()
        &&& self.terminated_after_drain()
        &&& self.joined_wf()
        &&& self.single_worker_ordered()
    }

    /// Creates a pool of `size` workers, all waiting on an empty,
    /// open queue. Fails exactly when `size` is zero.
    pub fn new(size: usize) -> (r: Result<ThreadPool, PoolError>)
        ensures
            r is Err <==> size == 0,
            r is Err ==> r == Result::<ThreadPool, PoolError>::Err(PoolError::ZeroWorkers),
            r matches Ok(p) ==> {
                &&& p.wf()
                &&& p.workers().len() == size
                &&& forall|w: int| 0 <= w < size ==> #[trigger] p.workers()[w] is Waiting
                &&& forall|w: int| 0 <= w < size ==> !(#[trigger] p.joined()[w])
                &&& p.queued().len() == 0
                &&& p.completed().len() == 0
                &&& p.issued() == 0
                &&& p.accepting()
            },
    {
        if size == 0 {
            return Err(PoolError::ZeroWorkers);
        }
        let mut workers: Vec<WorkerState> = Vec::new();
        let mut joined: Vec<bool> = Vec::new();
        let mut i: usize = 0;
        while i < size
            invariant
                i <= size,
                workers@.len() == i,
                joined@.len() == i,
                forall|w: int| 0 <= w < i ==> #[trigger] workers@[w] is Waiting,
                forall|w: int| 0 <= w < i ==> !(#[trigger] joined@[w]),
            decreases size - i,
        {
            workers.push(WorkerState::Waiting);
            joined.push(false);
            i = i + 1;
        }
        Ok(ThreadPool {
            workers,
            queue: Vec::new(),
            next_ticket: 0,
            completed: Vec::new(),
            producer_open: true,
            joined,
        })
    }

    /// Whether any worker can still receive a job.
    pub fn has_live_worker(&self) -> (r: bool)
        ensures
            r == self.some_live(),
    {
        let mut w: usize = 0;
        while w < self.workers.len()
            invariant
                w <= self.workers@.len(),
                forall|i: int| 0 <= i < w ==> !(#[trigger] self.workers@[i]).is_live(),
            decreases self.workers@.len() - w,
        {
            if self.workers[w].live() {
                proof {
                    assert(self.workers()[w as int].is_live());
                }
                return true;
            }
            w = w + 1;
        }
        false
    }

    /// Submits one job and returns its ticket: fire and forget.
    ///
    /// The submission joins the tail of the queue; nothing already
    /// queued, running or completed changes. It fails, leaving the
    /// pool untouched and the job unexecuted, exactly when no live
    /// worker is left to consume it.
    pub fn execute(&mut self) -> (r: Result<u64, PoolError>)
        requires
            old(self).wf(),
            old(self).accepting(),
            old(self).issued() < u64::MAX,
        ensures
            final(self).wf(),
            r is Ok <==> old(self).some_live(),
            r is Err ==> *final(self) == *old(self) && r == Result::<u64, PoolError>::Err(
                PoolError::WorkersGone,
            ),
            r matches Ok(t) ==> {
                &&& t == old(self).issued()
                &&& final(self).issued() == old(self).issued() + 1
                &&& final(self).queued() == old(self).queued().push(t)
                &&& final(self).workers() == old(self).workers()
                &&& final(self).completed() == old(self).completed()
                &&& final(self).accepting()
                &&& final(self).joined() == old(self).joined()
            },
    {
        if !self.has_live_worker() {
            return Err(PoolError::WorkersGone);
        }
        let t = self.next_ticket;
        self.next_ticket = t + 1;
        self.queue.push(t);
        proof {
            assert(self.first_queued() == old(self).first_queued());
            assert forall|i: int| 0 <= i < self.queued().len() implies #[trigger] self.queued()[i]
                == self.first_queued() + i by {
                if i < old(self).queued().len() {
                    assert(old(self).queued()[i] == old(self).first_queued() + i);
                }
            }
            assert forall|w: int|
                0 <= w < self.workers().len() && (#[trigger] self.workers()[w]) is Terminated implies self.queued().len()
                == 0 && !self.accepting() by {
                assert(old(self).workers()[w] is Terminated);
                assert(!old(self).accepting());
            }
            assert forall|u: u64| u < self.first_queued() implies #[trigger] self.executed(u)
                || self.held(u) by {
                assert(old(self).executed(u) || old(self).held(u));
                if old(self).held(u) {
                    let w = choose|w: int|
                        0 <= w < old(self).workers().len() && #[trigger] old(
                            self,
                        ).workers()[w].holds(u);
                    assert(self.workers()[w].holds(u));
                }
            }
        }
        Ok(t)
    }

    /// Hands the oldest queued job to a waiting worker.
    ///
    /// Delivery is in arrival order: the worker always receives the
    /// ticket at the head of the queue, and moves to `Executing` it.
    pub fn take_job(&mut self, worker: usize) -> (t: u64)
        requires
            old(self).wf(),
            worker < old(self).workers().len(),
            old(self).workers()[worker as int] is Waiting,
            old(self).queued().len() > 0,
        ensures
            final(self).wf(),
            t == old(self).queued()[0],
            t == old(self).first_queued(),
            final(self).queued() == old(self).queued().drop_first(),
            final(self).workers() == old(self).workers().update(
                worker as int,
                WorkerState::Executing(t),
            ),
            final(self).completed() == old(self).completed(),
            final(self).issued() == old(self).issued(),
            final(self).accepting() == old(self).accepting(),
            final(self).joined() == old(self).joined(),
    {
        let t = self.queue.remove(0);
        self.workers[worker] = WorkerState::Executing(t);
        proof {
            lemma_take_job_wf(*old(self), *self, worker as int, t);
        }
        t
    }

    /// Records that a worker ran its job to completion and is back
    /// waiting at the queue.
    pub fn finish_job(&mut self, worker: usize)
        requires
            old(self).wf(),
            worker < old(self).workers().len(),
            old(self).workers()[worker as int] is Executing,
        ensures
            final(self).wf(),
            final(self).workers() == old(self).workers().update(
                worker as int,
                WorkerState::Waiting,
            ),
            final(self).completed() == old(self).completed().push(
                old(self).workers()[worker as int].job(),
            ),
            final(self).queued() == old(self).queued(),
            final(self).issued() == old(self).issued(),
            final(self).accepting() == old(self).accepting(),
            final(self).joined() == old(self).joined(),
    {
        let state = self.workers[worker];
        match state {
            WorkerState::Executing(t) => {
                self.workers[worker] = WorkerState::Waiting;
                self.completed.push(t);
                proof {
                    lemma_finish_job_wf(*old(self), *self, worker as int, t);
                }
            },
            _ => {},
        }
    }

    /// Records that a job faulted under a worker: the job is lost, the
    /// worker leaves the loop for good, and the pool's capacity shrinks
    /// by one. Nothing else changes.
    pub fn crash_job(&mut self, worker: usize)
        requires
            old(self).wf(),
            worker < old(self).workers().len(),
            old(self).workers()[worker as int] is Executing,
        ensures
            final(self).wf(),
            final(self).workers() == old(self).workers().update(
                worker as int,
                WorkerState::Crashed(old(self).workers()[worker as int].job()),
            ),
            final(self).completed() == old(self).completed(),
            final(self).queued() == old(self).queued(),
            final(self).issued() == old(self).issued(),
            final(self).accepting() == old(self).accepting(),
            final(self).joined() == old(self).joined(),
    {
        let state = self.workers[worker];
        match state {
            WorkerState::Executing(t) => {
                self.workers[worker] = WorkerState::Crashed(t);
                proof {
                    lemma_crash_job_wf(*old(self), *self, worker as int, t);
                }
            },
            _ => {},
        }
    }

    /// Records that a waiting worker saw the queue closed and empty and
    /// exited its loop normally.
    pub fn worker_exit(&mut self, worker: usize)
        requires
            old(self).wf(),
            worker < old(self).workers().len(),
            old(self).workers()[worker as int] is Waiting,
            old(self).queued().len() == 0,
            !old(self).accepting(),
        ensures
            final(self).wf(),
            final(self).workers() == old(self).workers().update(
                worker as int,
                WorkerState::Terminated,
            ),
            final(self).completed() == old(self).completed(),
            final(self).queued() == old(self).queued(),
            final(self).issued() == old(self).issued(),
            final(self).accepting() == old(self).accepting(),
            final(self).joined() == old(self).joined(),
    {
        self.workers[worker] = WorkerState::Terminated;
        proof {
            lemma_worker_exit_wf(*old(self), *self, worker as int);
        }
    }

    /// Closes the producer side of the queue: no further job can be
    /// submitted, and workers drain what is already queued and then
    /// exit. Calling it again changes nothing: shutdown is a one-time,
    /// irreversible transition.
    pub fn shutdown(&mut self)
        requires
            old(self).wf(),
        ensures
            final(self).wf(),
            !final(self).accepting(),
            final(self).workers() == old(self).workers(),
            final(self).queued() == old(self).queued(),
            final(self).completed() == old(self).completed(),
            final(self).issued() == old(self).issued(),
            final(self).joined() == old(self).joined(),
            !old(self).accepting() ==> *final(self) == *old(self),
    {
        self.producer_open = false;
        proof {
            assert forall|w: int|
                0 <= w < self.joined().len() && #[trigger] self.joined()[w] implies !self.accepting()
                && !self.workers()[w].is_live() by {
                assert(!old(self).workers()[w].is_live());
            }
            lemma_none_lost_framed(*old(self), *self);
        }
    }

    /// Records that a worker's thread was joined during shutdown.
    ///
    /// A join happens at most once per worker — the caller must consult
    /// `is_joined` first — and only after the worker's thread has ended.
    /// Returns whether the join found a cleanly terminated thread;
    /// `false` reports a crashed worker, which must not abort the
    /// shutdown of the remaining workers.
    pub fn join_worker(&mut self, worker: usize) -> (r: bool)
        requires
            old(self).wf(),
            !old(self).accepting(),
            worker < old(self).workers().len(),
            !old(self).workers()[worker as int].is_live(),
            !old(self).joined()[worker as int],
        ensures
            final(self).wf(),
            final(self).joined() == old(self).joined().update(worker as int, true),
            r == (old(self).workers()[worker as int] is Terminated),
            final(self).workers() == old(self).workers(),
            final(self).queued() == old(self).queued(),
            final(self).completed() == old(self).completed(),
            final(self).issued() == old(self).issued(),
            final(self).accepting() == old(self).accepting(),
    {
        self.joined[worker] = true;
        proof {
            assert forall|w: int|
                0 <= w < self.joined().len() && #[trigger] self.joined()[w] implies !self.accepting()
                && !self.workers()[w].is_live() by {
                if w != worker {
                    assert(old(self).joined()[w]);
                }
            }
            lemma_none_lost_framed(*old(self), *self);
        }
        match self.workers[worker] {
            WorkerState::Terminated => true,
            _ => false,
        }
    }

    /// The fixed number of workers.
    pub fn worker_count(&self) -> (n: usize)
        ensures
            n == self.workers().len(),
    {
        self.workers.len()
    }

    /// The state of one worker.
    pub fn worker_state(&self, worker: usize) -> (s: WorkerState)
        requires
            worker < self.workers().len(),
        ensures
            s == self.workers()[worker as int],
    {
        self.workers[worker]
    }

    /// How many submitted jobs no worker has taken yet.
    pub fn pending_count(&self) -> (n: usize)
        ensures
            n == self.queued().len(),
    {
        self.queue.len()
    }

    /// How many jobs have ever been submitted.
    pub fn issued_count(&self) -> (n: u64)
        ensures
            n == self.issued(),
    {
        self.next_ticket
    }

    /// How many jobs have run to completion.
    pub fn completed_count(&self) -> (n: usize)
        ensures
            n == self.completed().len(),
    {
        self.completed.len()
    }

    /// The ticket of the `i`-th completed job, in completion order.
    pub fn completed_job(&self, i: usize) -> (t: u64)
        requires
            i < self.completed().len(),
        ensures
            t == self.completed()[i as int],
    {
        self.completed[i]
    }

    /// Whether the producer side is still open.
    pub fn is_accepting(&self) -> (r: bool)
        ensures
            r == self.accepting(),
    {
        self.producer_open
    }

    /// Whether this worker's thread has already been joined.
    pub fn is_joined(&self, worker: usize) -> (r: bool)
        requires
            worker < self.joined().len(),
        ensures
            r == self.joined()[worker as int],
    {
        self.joined[worker]
    }
}

/// Exactly-once accounting: at any reachable state, every submitted
/// job is in exactly one place — still queued, in a worker's hands, or
/// completed — and a job never submitted is nowhere.
pub proof fn lemma_exactly_once(p: ThreadPool, t: u64)
    requires
        p.wf(),
    ensures
        t < p.issued() ==> {
            &&& p.pending(t) || p.held(t) || p.executed(t)
            &&& !(p.pending(t) && p.held(t))
            &&& !(p.pending(t) && p.executed(t))
            &&& !(p.held(t) && p.executed(t))
        },
        t >= p.issued() ==> !p.pending(t) && !p.held(t) && !p.executed(t),
        p.completed().no_duplicates(),
{
    if t < p.first_queued() {
        assert(p.executed(t) || p.held(t));
        assert(!p.pending(t)) by {
            if p.pending(t) {
                let i = choose|i: int| 0 <= i < p.queued().len() && p.queued()[i] == t;
                assert(p.queued()[i] == p.first_queued() + i);
            }
        }
        if p.held(t) {
            let w = choose|w: int|
                0 <= w < p.workers().len() && #[trigger] p.workers()[w].holds(t);
            assert(!p.executed(t));
        }
    } else if t < p.issued() {
        let i = t - p.first_queued();
        assert(p.queued()[i] == t);
        assert(p.pending(t));
        assert(!p.executed(t)) by {
            if p.executed(t) {
                let i = choose|i: int| 0 <= i < p.completed().len() && p.completed()[i] == t;
                assert(p.completed()[i] < p.first_queued());
            }
        }
        assert(!p.held(t)) by {
            if p.held(t) {
                let w = choose|w: int|
                    0 <= w < p.workers().len() && #[trigger] p.workers()[w].holds(t);
            }
        }
    } else {
        assert(!p.pending(t)) by {
            if p.pending(t) {
                let i = choose|i: int| 0 <= i < p.queued().len() && p.queued()[i] == t;
                assert(p.queued()[i] == p.first_queued() + i);
            }
        }
        assert(!p.executed(t)) by {
            if p.executed(t) {
                let i = choose|i: int| 0 <= i < p.completed().len() && p.completed()[i] == t;
                assert(p.completed()[i] < p.first_queued());
            }
        }
        assert(!p.held(t)) by {
            if p.held(t) {
                let w = choose|w: int|
                    0 <= w < p.workers().len() && #[trigger] p.workers()[w].holds(t);
            }
        }
    }
}

/// The set of tickets below `n` has exactly `n` elements.
proof fn lemma_tickets_below_card(n: u64)
    ensures
        Set::new(|t: u64| t < n).finite(),
        Set::new(|t: u64| t < n).len() == n,
    decreases n,
{
    broadcast use vstd::set::group_set_axioms;

    if n == 0 {
        assert(Set::new(|t: u64| t < n) =~= Set::empty());
    } else {
        let m = (n - 1) as u64;
        lemma_tickets_below_card(m);
        assert(Set::new(|t: u64| t < m).insert(m) =~= Set::new(|t: u64| t < n));
    }
}

/// The drain guarantee: once every worker has terminated normally —
/// the state a full shutdown waits for — the queue is empty, the pool
/// is closed, and every job ever submitted has completed exactly once:
/// the completion record is a permutation of all issued tickets.
pub proof fn lemma_drained(p: ThreadPool)
    requires
        p.wf(),
        forall|w: int| 0 <= w < p.workers().len() ==> (#[trigger] p.workers()[w]) is Terminated,
    ensures
        p.queued().len() == 0,
        !p.accepting(),
        forall|t: u64| t < p.issued() ==> #[trigger] p.executed(t),
        p.completed().no_duplicates(),
        p.completed().len() == p.issued(),
{
    broadcast use vstd::set::group_set_axioms;

    assert(p.workers()[0] is Terminated);
    assert(p.queued().len() == 0 && !p.accepting());
    assert(p.first_queued() == p.issued());
    assert forall|t: u64| t < p.issued() implies #[trigger] p.executed(t) by {
        assert(p.executed(t) || p.held(t));
        if p.held(t) {
            let w = choose|w: int|
                0 <= w < p.workers().len() && #[trigger] p.workers()[w].holds(t);
            assert(p.workers()[w] is Terminated);
        }
    }
    assert(p.completed().to_set() =~= Set::new(|t: u64| t < p.issued())) by {
        assert forall|t: u64| p.completed().to_set().contains(t) implies t < p.issued() by {
            assert(p.completed().contains(t));
            let i = choose|i: int| 0 <= i < p.completed().len() && p.completed()[i] == t;
            assert(p.completed()[i] < p.first_queued());
        }
        assert forall|t: u64| t < p.issued() implies p.completed().to_set().contains(t) by {
            assert(p.executed(t));
        }
    }
    p.completed().unique_seq_to_set();
    lemma_tickets_below_card(p.issued());
}

/// The serialization law: a pool of exactly one worker completes jobs
/// in strict arrival order — the `i`-th completion is the `i`-th
/// submission.
pub proof fn lemma_single_worker_fifo(p: ThreadPool, i: int)
    requires
        p.wf(),
        p.workers().len() == 1,
        0 <= i < p.completed().len(),
    ensures
        p.completed()[i] == i as u64,
{
}

/// Nothing delivered is lost across a step that leaves workers, queue
/// and completions unchanged.
proof fn lemma_none_lost_framed(pre: ThreadPool, post: ThreadPool)
    requires
        pre.none_lost(),
        post.workers() == pre.workers(),
        post.queued() == pre.queued(),
        post.completed() == pre.completed(),
        post.issued() == pre.issued(),
    ensures
        post.none_lost(),
{
    assert forall|u: u64| u < post.first_queued() implies #[trigger] post.executed(u)
        || post.held(u) by {
        assert(pre.executed(u) || pre.held(u));
        if pre.held(u) {
            let w = choose|w: int|
                0 <= w < pre.workers().len() && #[trigger] pre.workers()[w].holds(u);
            assert(post.workers()[w].holds(u));
        }
    }
}

/// The completion transition preserves the pool invariant.
proof fn lemma_finish_job_wf(pre: ThreadPool, post: ThreadPool, worker: int, t: u64)
    requires
        pre.wf(),
        0 <= worker < pre.workers().len(),
        pre.workers()[worker] == WorkerState::Executing(t),
        post.workers() == pre.workers().update(worker, WorkerState::Waiting),
        post.completed() == pre.completed().push(t),
        post.queued() == pre.queued(),
        post.issued() == pre.issued(),
        post.accepting() == pre.accepting(),
        post.joined() == pre.joined(),
    ensures
        post.wf(),
{
    assert(pre.workers()[worker].holds(t));
    assert(post.first_queued() == pre.first_queued());
    assert(t < pre.first_queued());
    assert(!pre.executed(t));
    // contiguity and the position of completed tickets
    assert forall|i: int| 0 <= i < post.completed().len() implies #[trigger] post.completed()[i]
        < post.first_queued() by {
        if i < pre.completed().len() {
            assert(pre.completed()[i] < pre.first_queued());
        }
    }
    // no ticket is completed twice
    assert forall|i: int, j: int|
        0 <= i < post.completed().len() && 0 <= j < post.completed().len() && i
            != j implies post.completed()[i] != post.completed()[j] by {
        if i < pre.completed().len() && j < pre.completed().len() {
            assert(pre.completed()[i] != pre.completed()[j]);
        } else if j == pre.completed().len() {
            assert(post.completed()[j] == t);
            assert(!pre.completed().contains(t));
            assert(pre.completed()[i] != t);
        } else {
            assert(post.completed()[i] == t);
            assert(!pre.completed().contains(t));
            assert(pre.completed()[j] != t);
        }
    }
    assert(post.completed().no_duplicates());
    // every delivered ticket stays accounted for
    assert forall|u: u64| u < post.first_queued() implies #[trigger] post.executed(u)
        || post.held(u) by {
        assert(pre.executed(u) || pre.held(u));
        if pre.executed(u) {
            let i = choose|i: int| 0 <= i < pre.completed().len() && pre.completed()[i] == u;
            assert(post.completed()[i] == u);
        } else {
            let w = choose|w: int|
                0 <= w < pre.workers().len() && #[trigger] pre.workers()[w].holds(u);
            if w == worker {
                assert(u == t);
                assert(post.completed()[pre.completed().len() as int] == t);
            } else {
                assert(post.workers()[w].holds(u));
            }
        }
    }
    // a held ticket is still never completed
    assert forall|w: int, u: u64|
        0 <= w < post.workers().len() && #[trigger] post.workers()[w].holds(u) implies !post.executed(
        u,
    ) by {
        assert(w != worker);
        assert(pre.workers()[w].holds(u));
        assert(u != t);
        assert(!pre.completed().contains(u));
        assert forall|i: int| 0 <= i < post.completed().len() implies post.completed()[i]
            != u by {
            if i < pre.completed().len() {
                assert(pre.completed()[i] != u);
            }
        }
    }
    // still no two holders of one ticket
    assert forall|w1: int, w2: int, u: u64|
        0 <= w1 < post.workers().len() && 0 <= w2 < post.workers().len()
            && #[trigger] post.workers()[w1].holds(u) && #[trigger] post.workers()[w2].holds(
        u,
    ) implies w1 == w2 by {
        assert(w1 != worker && w2 != worker);
        assert(pre.workers()[w1].holds(u));
        assert(pre.workers()[w2].holds(u));
    }
    assert forall|w: int|
        0 <= w < post.workers().len() && (#[trigger] post.workers()[w]) is Terminated implies post.queued().len()
        == 0 && !post.accepting() by {
        assert(pre.workers()[w] is Terminated);
    }
    assert forall|w: int|
        0 <= w < post.joined().len() && #[trigger] post.joined()[w] implies !post.accepting()
        && !post.workers()[w].is_live() by {
        assert(pre.joined()[w]);
        assert(!pre.workers()[w].is_live());
        assert(w != worker);
    }
    if post.workers().len() == 1 {
        assert(worker == 0);
        assert(t == pre.completed().len());
        assert forall|i: int| 0 <= i < post.completed().len() implies #[trigger] post.completed()[i]
            == i as u64 by {
            if i < pre.completed().len() {
                assert(pre.completed()[i] == i as u64);
            }
        }
    }
}

/// The crash transition preserves the pool invariant: the held ticket
/// merely changes from running to lost.
proof fn lemma_crash_job_wf(pre: ThreadPool, post: ThreadPool, worker: int, t: u64)
    requires
        pre.wf(),
        0 <= worker < pre.workers().len(),
        pre.workers()[worker] == WorkerState::Executing(t),
        post.workers() == pre.workers().update(worker, WorkerState::Crashed(t)),
        post.completed() == pre.completed(),
        post.queued() == pre.queued(),
        post.issued() == pre.issued(),
        post.accepting() == pre.accepting(),
        post.joined() == pre.joined(),
    ensures
        post.wf(),
{
    assert(post.first_queued() == pre.first_queued());
    assert forall|w: int, u: u64|
        0 <= w < post.workers().len() && #[trigger] post.workers()[w].holds(u) implies pre.workers()[w].holds(
        u,
    ) by {
        if w == worker {
            assert(u == t);
        }
    }
    assert forall|u: u64| u < post.first_queued() implies #[trigger] post.executed(u)
        || post.held(u) by {
        assert(pre.executed(u) || pre.held(u));
        if pre.held(u) {
            let w = choose|w: int|
                0 <= w < pre.workers().len() && #[trigger] pre.workers()[w].holds(u);
            assert(post.workers()[w].holds(u));
        }
    }
    assert forall|w: int|
        0 <= w < post.workers().len() && (#[trigger] post.workers()[w]) is Terminated implies post.queued().len()
        == 0 && !post.accepting() by {
        assert(pre.workers()[w] is Terminated);
    }
    assert forall|w: int|
        0 <= w < post.joined().len() && #[trigger] post.joined()[w] implies !post.accepting()
        && !post.workers()[w].is_live() by {
        assert(pre.joined()[w]);
        assert(!pre.workers()[w].is_live());
        assert(w != worker);
    }
}

/// The normal-exit transition preserves the pool invariant.
proof fn lemma_worker_exit_wf(pre: ThreadPool, post: ThreadPool, worker: int)
    requires
        pre.wf(),
        0 <= worker < pre.workers().len(),
        pre.workers()[worker] is Waiting,
        pre.queued().len() == 0,
        !pre.accepting(),
        post.workers() == pre.workers().update(worker, WorkerState::Terminated),
        post.completed() == pre.completed(),
        post.queued() == pre.queued(),
        post.issued() == pre.issued(),
        post.accepting() == pre.accepting(),
        post.joined() == pre.joined(),
    ensures
        post.wf(),
{
    assert(post.first_queued() == pre.first_queued());
    assert forall|w: int, u: u64|
        0 <= w < post.workers().len() && #[trigger] post.workers()[w].holds(u) implies pre.workers()[w].holds(
        u,
    ) by {
        assert(w != worker);
    }
    assert forall|u: u64| u < post.first_queued() implies #[trigger] post.executed(u)
        || post.held(u) by {
        assert(pre.executed(u) || pre.held(u));
        if pre.held(u) {
            let w = choose|w: int|
                0 <= w < pre.workers().len() && #[trigger] pre.workers()[w].holds(u);
            assert(w != worker);
            assert(post.workers()[w].holds(u));
        }
    }
    assert forall|w: int|
        0 <= w < post.joined().len() && #[trigger] post.joined()[w] implies !post.accepting()
        && !post.workers()[w].is_live() by {
        assert(pre.joined()[w]);
        assert(!pre.workers()[w].is_live());
    }
}

/// The delivery transition preserves the pool invariant.
proof fn lemma_take_job_wf(pre: ThreadPool, post: ThreadPool, worker: int, t: u64)
    requires
        pre.wf(),
        0 <= worker < pre.workers().len(),
        pre.workers()[worker] is Waiting,
        pre.queued().len() > 0,
        t == pre.queued()[0],
        post.queued() == pre.queued().drop_first(),
        post.workers() == pre.workers().update(worker, WorkerState::Executing(t)),
        post.completed() == pre.completed(),
        post.issued() == pre.issued(),
        post.accepting() == pre.accepting(),
        post.joined() == pre.joined(),
    ensures
        post.wf(),
{
    assert(t == pre.first_queued());
    assert(post.first_queued() == pre.first_queued() + 1);
    assert forall|i: int| 0 <= i < post.queued().len() implies #[trigger] post.queued()[i]
        == post.first_queued() + i by {
        assert(post.queued()[i] == pre.queued()[i + 1]);
    }
    assert forall|w: int, u: u64|
        0 <= w < post.workers().len() && #[trigger] post.workers()[w].holds(u) implies u
        < post.first_queued() by {
        if w != worker {
            assert(pre.workers()[w].holds(u));
        }
    }
    assert forall|u: u64| u < post.first_queued() implies #[trigger] post.executed(u)
        || post.held(u) by {
        if u < pre.first_queued() {
            assert(pre.executed(u) || pre.held(u));
            if pre.held(u) {
                let w = choose|w: int|
                    0 <= w < pre.workers().len() && #[trigger] pre.workers()[w].holds(u);
                assert(post.workers()[w].holds(u));
            } else {
                assert(post.executed(u));
            }
        } else {
            assert(u == t);
            assert(post.workers()[worker].holds(u));
        }
    }
    assert forall|w: int, u: u64|
        0 <= w < post.workers().len() && #[trigger] post.workers()[w].holds(u) implies !post.executed(
        u,
    ) by {
        if w != worker {
            assert(pre.workers()[w].holds(u));
        } else {
            assert(u == t);
            assert forall|i: int| 0 <= i < post.completed().len() implies post.completed()[i]
                != u by {
                assert(pre.completed()[i] < pre.first_queued());
            }
            assert(!post.completed().contains(u));
        }
    }
    assert forall|w1: int, w2: int, u: u64|
        0 <= w1 < post.workers().len() && 0 <= w2 < post.workers().len()
            && #[trigger] post.workers()[w1].holds(u) && #[trigger] post.workers()[w2].holds(
        u,
    ) implies w1 == w2 by {
        if w1 != worker && w2 != worker {
            assert(pre.workers()[w1].holds(u));
            assert(pre.workers()[w2].holds(u));
        } else if w1 == worker && w2 != worker {
            assert(pre.workers()[w2].holds(u));
            assert(u < pre.first_queued());
        } else if w1 != worker && w2 == worker {
            assert(pre.workers()[w1].holds(u));
            assert(u < pre.first_queued());
        }
    }
    assert forall|w: int|
        0 <= w < post.workers().len() && (#[trigger] post.workers()[w]) is Terminated implies post.queued().len()
        == 0 && !post.accepting() by {
        assert(pre.workers()[w] is Terminated);
        assert(pre.queued().len() == 0);
    }
}

} // verus!
