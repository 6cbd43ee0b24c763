//! Per-inbox delivery worker: failure-aware backoff and the bounded,
//! lossy job mailbox.
//!
//! One worker owns one inbox.  Its mailbox accepts jobs without blocking
//! and drops the newest job when full; its state machine drops jobs that
//! arrive during a cool-down that grows linearly with the number of
//! consecutive failures.

use vstd::prelude::*;

use crate::fanout::{Job, JobView};

verus! {

/// How long one consecutive failure extends the cool-down, in
/// milliseconds.
pub const COOLDOWN_MS_PER_ERROR: u64 = 10000;

/// How many pending jobs one worker's mailbox holds at most.
pub const MAILBOX_CAPACITY: usize = 1024;

/// The backoff gate: a job is dropped while the worker has seen at least
/// one consecutive failure and the cool-down since the last attempt,
/// `10 s × errors`, has not yet passed.
pub open spec fn in_backoff(errors: u32, last_attempt: Option<u64>, now_ms: u64) -> bool {
    &&& errors > 0
    &&& match last_attempt {
        Some(l) => now_ms - l < COOLDOWN_MS_PER_ERROR * errors,
        None => false,
    }
}

/// The failure counter after one more failure: it saturates, never wraps.
pub open spec fn step_fail(errors: u32) -> u32 {
    if errors < u32::MAX {
        (errors + 1) as u32
    } else {
        u32::MAX
    }
}

/// The failure counter after `n` consecutive failures from a clean state.
pub open spec fn fails(n: nat) -> u32
    decreases n,
{
    if n == 0 {
        0u32
    } else {
        step_fail(fails((n - 1) as nat))
    }
}

/// The mutable state one delivery worker owns: its consecutive-failure
/// count and the timestamp of its last attempted delivery.
pub struct WorkerState {
    pub errors: u32,
    pub last_attempt: Option<u64>,
}

impl WorkerState {
    /// A fresh worker: no failures, no attempt yet.
    pub fn new() -> (r: WorkerState)
        ensures
            r.errors == 0,
            r.last_attempt is None,
    {
        WorkerState { errors: 0, last_attempt: None }
    }

    /// Whether a job arriving at `now_ms` must be dropped by the backoff
    /// gate.
    pub fn should_skip(&self, now_ms: u64) -> (r: bool)
        ensures
            r == in_backoff(self.errors, self.last_attempt, now_ms),
    {
        if self.errors == 0 {
            false
        } else {
            match self.last_attempt {
                None => false,
                Some(l) => {
                    if now_ms < l {
                        true
                    } else {
                        now_ms - l < COOLDOWN_MS_PER_ERROR * (self.errors as u64)
                    }
                },
            }
        }
    }

    /// Take the decision for one received job: when the backoff gate is
    /// open, record the attempt at `now_ms` and deliver; otherwise drop
    /// the job and leave the state untouched.
    pub fn on_job(&mut self, now_ms: u64) -> (attempt: bool)
        ensures
            attempt == !in_backoff(old(self).errors, old(self).last_attempt, now_ms),
            attempt ==> final(self).errors == old(self).errors && final(self).last_attempt
                == Some(now_ms),
            !attempt ==> *final(self) == *old(self),
    {
        if self.should_skip(now_ms) {
            false
        } else {
            self.last_attempt = Some(now_ms);
            true
        }
    }

    /// Record the outcome of one attempted delivery: success resets the
    /// failure count at once, failure increments it, saturating.
    pub fn on_result(&mut self, ok: bool)
        ensures
            final(self).last_attempt == old(self).last_attempt,
            ok ==> final(self).errors == 0,
            !ok ==> final(self).errors == step_fail(old(self).errors),
    {
        if ok {
            self.errors = 0;
        } else {
            if self.errors < u32::MAX {
                self.errors = self.errors + 1;
            }
        }
    }
}

/// `n` consecutive failures from a clean state count up to exactly `n`.
pub proof fn lemma_fails_count(n: nat)
    requires
        n <= u32::MAX,
    ensures
        fails(n) == n,
    decreases n,
{
    if n > 0 {
        lemma_fails_count((n - 1) as nat);
    }
}

/// After `n` consecutive delivery failures, a job arriving within
/// `10 s × n` of the last attempt is refused, while one success resets the
/// failure count to zero at once.
pub proof fn lemma_backoff_policy(n: nat, last_ms: u64, now_ms: u64)
    requires
        0 < n <= u32::MAX,
        now_ms - last_ms < COOLDOWN_MS_PER_ERROR * n,
    ensures
        in_backoff(fails(n), Some(last_ms), now_ms),
        fails(n) == n,
{
    lemma_fails_count(n);
}

/// The bounded, lossy, first-in-first-out mailbox of one worker.
pub struct Mailbox {
    jobs: Vec<Job>,
}

impl View for Mailbox {
    type V = Seq<JobView>;

    closed spec fn view(&self) -> Seq<JobView> {
        self.jobs@.map_values(|j: Job| j@)
    }
}

impl Mailbox {
    /// A mailbox never holds more than its capacity.
    pub open spec fn wf(&self) -> bool {
        self@.len() <= MAILBOX_CAPACITY
    }

    /// An empty mailbox.
    pub fn new() -> (r: Mailbox)
        ensures
            r@ == Seq::<JobView>::empty(),
            r.wf(),
    {
        let r = Mailbox { jobs: Vec::new() };
        proof {
            assert(r@ =~= Seq::<JobView>::empty());
        }
        r
    }

    /// How many jobs are pending.
    pub fn len(&self) -> (r: usize)
        ensures
            r == self@.len(),
    {
        self.jobs.len()
    }

    /// Submit one job without blocking: it is appended when there is
    /// room, and dropped — not queued, not retried — when the mailbox is
    /// full.
    pub fn try_submit(&mut self, job: Job) -> (accepted: bool)
        requires
            old(self).wf(),
        ensures
            final(self).wf(),
            accepted == (old(self)@.len() < MAILBOX_CAPACITY),
            accepted ==> final(self)@ == old(self)@.push(job@),
            !accepted ==> final(self)@ == old(self)@,
    {
        if self.jobs.len() < MAILBOX_CAPACITY {
            let ghost before = self@;
            self.jobs.push(job);
            proof {
                assert(self@ =~= before.push(job@));
            }
            true
        } else {
            false
        }
    }

    /// Take the oldest pending job, if any.
    pub fn take_next(&mut self) -> (r: Option<Job>)
        requires
            old(self).wf(),
        ensures
            final(self).wf(),
            old(self)@.len() == 0 ==> r is None && final(self)@ == old(self)@,
            old(self)@.len() > 0 ==> match r {
                Some(j) => j@ == old(self)@[0] && final(self)@ == old(self)@.skip(1),
                None => false,
            },
    {
        if self.jobs.len() == 0 {
            None
        } else {
            let ghost before = self@;
            let j = self.jobs.remove(0);
            proof {
                assert(self@ =~= before.skip(1));
            }
            Some(j)
        }
    }
}

/// One turn of a worker's loop: take the oldest pending job and decide.
/// The job comes back for delivery when the backoff gate is open (the
/// attempt is then recorded at `now_ms`); a job met by a closed gate is
/// dropped silently, and an empty mailbox changes nothing.
pub fn worker_step(state: &mut WorkerState, mailbox: &mut Mailbox, now_ms: u64) -> (r: Option<Job>)
    requires
        old(mailbox).wf(),
    ensures
        final(mailbox).wf(),
        old(mailbox)@.len() == 0 ==> r is None && *final(state) == *old(state) && final(mailbox)@
            == old(mailbox)@,
        old(mailbox)@.len() > 0 ==> final(mailbox)@ == old(mailbox)@.skip(1) && (match r {
            Some(j) => j@ == old(mailbox)@[0] && !in_backoff(
                old(state).errors,
                old(state).last_attempt,
                now_ms,
            ) && final(state).errors == old(state).errors && final(state).last_attempt == Some(
                now_ms,
            ),
            None => in_backoff(old(state).errors, old(state).last_attempt, now_ms) && *final(state)
                == *old(state),
        }),
{
    match mailbox.take_next() {
        None => None,
        Some(job) => {
            if state.on_job(now_ms) {
                Some(job)
            } else {
                None
            }
        },
    }
}

/// What one non-blocking submission does to the pending jobs.
pub open spec fn submit_one(q: Seq<JobView>, j: JobView) -> Seq<JobView> {
    if q.len() < MAILBOX_CAPACITY {
        q.push(j)
    } else {
        q
    }
}

/// What submitting a burst of jobs, one after the other, does to the
/// pending jobs.
pub open spec fn submit_all(q: Seq<JobView>, incoming: Seq<JobView>) -> Seq<JobView>
    decreases incoming.len(),
{
    if incoming.len() == 0 {
        q
    } else {
        submit_all(submit_one(q, incoming[0]), incoming.skip(1))
    }
}

/// Submitting a burst beyond the mailbox capacity keeps the earliest jobs
/// up to capacity, in order, and drops the excess.
pub proof fn lemma_burst_drops_excess(q: Seq<JobView>, incoming: Seq<JobView>)
    requires
        q.len() <= MAILBOX_CAPACITY,
    ensures
        ({
            let kept = if incoming.len() <= MAILBOX_CAPACITY - q.len() {
                incoming.len() as int
            } else {
                MAILBOX_CAPACITY - q.len()
            };
            submit_all(q, incoming) == q + incoming.take(kept)
        }),
    decreases incoming.len(),
{
    if incoming.len() == 0 {
        assert(q + incoming.take(0) =~= q);
    } else if q.len() < MAILBOX_CAPACITY {
        lemma_burst_drops_excess(q.push(incoming[0]), incoming.skip(1));
        let kept = if incoming.len() <= MAILBOX_CAPACITY - q.len() {
            incoming.len() as int
        } else {
            MAILBOX_CAPACITY - q.len()
        };
        let kept_rest = if incoming.skip(1).len() <= MAILBOX_CAPACITY - q.len() - 1 {
            incoming.skip(1).len() as int
        } else {
            MAILBOX_CAPACITY - q.len() - 1
        };
        assert(kept == kept_rest + 1);
        assert(q.push(incoming[0]) + incoming.skip(1).take(kept_rest) =~= q + incoming.take(
            kept,
        ));
    } else {
        lemma_burst_drops_excess(q, incoming.skip(1));
        assert(q + incoming.skip(1).take(0) =~= q);
        assert(q + incoming.take(0) =~= q);
    }
}

/// The jobs a worker attempts, in order, when fed `jobs` one by one: the
/// job arriving at `nows[k]` is dropped when the backoff gate is closed,
/// and otherwise attempted with outcome `oks[k]`.
pub open spec fn attempted_jobs(
    jobs: Seq<JobView>,
    errors: u32,
    last_attempt: Option<u64>,
    nows: Seq<u64>,
    oks: Seq<bool>,
) -> Seq<JobView>
    decreases jobs.len(),
{
    if jobs.len() == 0 {
        Seq::empty()
    } else if in_backoff(errors, last_attempt, nows[0]) {
        attempted_jobs(jobs.skip(1), errors, last_attempt, nows.skip(1), oks.skip(1))
    } else {
        seq![jobs[0]] + attempted_jobs(
            jobs.skip(1),
            if oks[0] {
                0u32
            } else {
                step_fail(errors)
            },
            Some(nows[0]),
            nows.skip(1),
            oks.skip(1),
        )
    }
}

/// With no failure history and successful deliveries, no job is dropped
/// by the backoff gate: every submitted job is attempted, in submission
/// order.
pub proof fn lemma_in_order_no_drops(
    jobs: Seq<JobView>,
    last_attempt: Option<u64>,
    nows: Seq<u64>,
    oks: Seq<bool>,
)
    requires
        nows.len() == jobs.len(),
        oks.len() == jobs.len(),
        forall|k: int| 0 <= k < oks.len() ==> oks[k],
    ensures
        attempted_jobs(jobs, 0u32, last_attempt, nows, oks) == jobs,
    decreases jobs.len(),
{
    if jobs.len() == 0 {
        assert(attempted_jobs(jobs, 0u32, last_attempt, nows, oks) =~= jobs);
    } else {
        assert(oks[0]);
        assert(forall|k: int| 0 <= k < oks.skip(1).len() ==> oks.skip(1)[k]) by {
            assert(forall|k: int|
                0 <= k < oks.skip(1).len() ==> #[trigger] oks.skip(1)[k] == oks[k + 1]);
        }
        lemma_in_order_no_drops(jobs.skip(1), Some(nows[0]), nows.skip(1), oks.skip(1));
        assert(seq![jobs[0]] + jobs.skip(1) =~= jobs);
    }
}

} // verus!
