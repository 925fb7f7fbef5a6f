//! The executor: a ready queue of runnable tasks, resumed one at a
//! time, with background timers modelled as pending fire events on a
//! virtual clock.
//!
//! A task wraps one suspended computation together with the number of
//! times it was resumed and, once done, its completion time.  Spawning
//! enqueues the task once; the run loop repeatedly takes the front
//! task off the ready queue and resumes it with a notification handle
//! bound to itself.  When the queue is empty the executor lets the
//! earliest pending timer fire, which advances the virtual clock to
//! the timer's instant and re-enqueues the task its handle is bound
//! to; a notification for a task that has already completed is
//! absorbed silently.  When neither a runnable task nor a pending
//! timer is left — every producer is gone — the queue is observed
//! closed and the loop terminates.
//!
//! At most one resumption of a task's computation is ever in flight.
//! Here that exclusive access needs no run-time guard: the executor
//! is the queue's single consumer and resumes tasks one at a time, so
//! ownership enforces it statically.  A driver that delivers
//! notifications from other threads must supply its own guard around
//! each task's computation.

use vstd::prelude::*;

use crate::delay::DelayCore;
use crate::delay::NaiveDelayCore;
use crate::race::RaceCore;
use crate::race::RaceWinner;
use crate::suspend::Suspended;
use crate::suspend::TimerRequest;

verus! {

/// A background timer armed on behalf of task `task`: at instant
/// `fire_at` it delivers one notification, re-enqueueing that task.
#[derive(Clone, Copy)]
pub struct TimerEvent {
    pub fire_at: u64,
    pub task: usize,
}

/// One line of the completion log: task `task` reported completion at
/// instant `at`.
#[derive(Clone, Copy)]
pub struct Completion {
    pub task: usize,
    pub at: u64,
}

/// The computations the executor schedules.
#[derive(Clone, Copy)]
pub enum Job {
    /// A cached-handle timer resource.
    Timer(DelayCore),
    /// A naive timer resource.
    NaiveTimer(NaiveDelayCore),
    /// A race over two timer resources.
    Race(RaceCore<DelayCore, DelayCore>),
    /// A computation that is never ready and registers no wake-up: it
    /// models a task whose notification handles have all been dropped.
    Inert,
}

/// The task harness: one computation, its resumption count, and its
/// completion time once done.
#[derive(Clone, Copy)]
pub struct Task {
    pub job: Job,
    pub done: bool,
    pub resumes: u64,
    pub finished_at: u64,
}

/// Whether the computation inside a job has completed.
pub open spec fn job_done(j: Job) -> bool {
    match j {
        Job::Timer(d) => d.done,
        Job::NaiveTimer(d) => d.done,
        Job::Race(r) => r.completed(),
        Job::Inert => false,
    }
}

/// Whether a job has never been resumed.
pub open spec fn job_fresh(j: Job) -> bool {
    match j {
        Job::Timer(d) => d.is_fresh(),
        Job::NaiveTimer(d) => !d.done,
        Job::Race(r) => r.fresh(),
        Job::Inert => true,
    }
}

/// The instant from which resuming the job reports completion.  An
/// inert job has none; the value is unused for it.
pub open spec fn job_ready_time(j: Job) -> u64 {
    match j {
        Job::Timer(d) => d.deadline,
        Job::NaiveTimer(d) => d.deadline,
        Job::Race(r) => r.spec_ready_time(),
        Job::Inert => 0,
    }
}

/// How many background timers a task may still ask for; the run loop's
/// termination measure charges three units for each.
pub open spec fn task_pot(t: Task) -> nat {
    if t.done {
        0
    } else {
        match t.job {
            Job::Timer(d) => d.spawn_budget(),
            Job::NaiveTimer(_) => if t.resumes == 0 {
                1
            } else {
                0
            },
            Job::Race(r) => r.spawn_budget(),
            Job::Inert => 0,
        }
    }
}

/// The number of ready-queue entries that refer to task `t`.
pub open spec fn ecount(q: Seq<usize>, t: int) -> nat
    decreases q.len(),
{
    if q.len() == 0 {
        0
    } else {
        (if q[0] == t {
            1nat
        } else {
            0nat
        }) + ecount(q.drop_first(), t)
    }
}

/// The number of completion-log lines that refer to task `t`.
pub open spec fn lcount(lg: Seq<Completion>, t: int) -> nat
    decreases lg.len(),
{
    if lg.len() == 0 {
        0
    } else {
        (if lg[0].task == t {
            1nat
        } else {
            0nat
        }) + lcount(lg.drop_first(), t)
    }
}

/// The number of pending timers bound to task `t` that fire at
/// instant `f`.
pub open spec fn tcountf(ts: Seq<TimerEvent>, t: int, f: u64) -> nat
    decreases ts.len(),
{
    if ts.len() == 0 {
        0
    } else {
        (if ts[0].task == t && ts[0].fire_at == f {
            1nat
        } else {
            0nat
        }) + tcountf(ts.drop_first(), t, f)
    }
}

/// The total timer allowance of all tasks.
pub open spec fn potsum(ts: Seq<Task>) -> nat
    decreases ts.len(),
{
    if ts.len() == 0 {
        0
    } else {
        task_pot(ts[0]) + potsum(ts.drop_first())
    }
}

proof fn lemma_ecount_push(q: Seq<usize>, x: usize, t: int)
    ensures
        ecount(q.push(x), t) == ecount(q, t) + if x == t {
            1nat
        } else {
            0nat
        },
    decreases q.len(),
{
    if q.len() == 0 {
        assert(q.push(x).drop_first() =~= q);
    } else {
        assert(q.push(x).drop_first() =~= q.drop_first().push(x));
        lemma_ecount_push(q.drop_first(), x, t);
    }
}

proof fn lemma_ecount_zero(q: Seq<usize>, t: int)
    ensures
        ecount(q, t) == 0 <==> forall|k: int| 0 <= k < q.len() ==> q[k] != t,
    decreases q.len(),
{
    if q.len() > 0 {
        lemma_ecount_zero(q.drop_first(), t);
        if ecount(q, t) == 0 {
            assert forall|k: int| 0 <= k < q.len() implies q[k] != t by {
                if k > 0 {
                    assert(q.drop_first()[k - 1] == q[k]);
                }
            }
        } else {
            if q[0] != t {
                let k = choose|k: int| 0 <= k < q.drop_first().len() && q.drop_first()[k] == t;
                assert(q[k + 1] == t);
            }
        }
    }
}

proof fn lemma_lcount_push(lg: Seq<Completion>, x: Completion, t: int)
    ensures
        lcount(lg.push(x), t) == lcount(lg, t) + if x.task == t {
            1nat
        } else {
            0nat
        },
    decreases lg.len(),
{
    if lg.len() == 0 {
        assert(lg.push(x).drop_first() =~= lg);
    } else {
        assert(lg.push(x).drop_first() =~= lg.drop_first().push(x));
        lemma_lcount_push(lg.drop_first(), x, t);
    }
}

proof fn lemma_potsum_update(ts: Seq<Task>, i: int, x: Task)
    requires
        0 <= i < ts.len(),
    ensures
        potsum(ts.update(i, x)) + task_pot(ts[i]) == potsum(ts) + task_pot(x),
    decreases ts.len(),
{
    if i == 0 {
        assert(ts.update(0, x).drop_first() =~= ts.drop_first());
    } else {
        assert(ts.update(i, x).drop_first() =~= ts.drop_first().update(i - 1, x));
        lemma_potsum_update(ts.drop_first(), i - 1, x);
    }
}

/// The executor: the virtual clock, the task table, the ready queue
/// (front at index zero), the pending background timers, and the
/// completion log.
pub struct Executor {
    pub clock: u64,
    pub tasks: Vec<Task>,
    pub queue: Vec<usize>,
    pub timers: Vec<TimerEvent>,
    pub log: Vec<Completion>,
}

impl Executor {
    /// The single-writer discipline and notification bookkeeping, for
    /// one task.
    pub open spec fn task_inv(&self, i: int) -> bool {
        let t = self.tasks@[i];
        let e = ecount(self.queue@, i);
        &&& t.done == job_done(t.job)
        &&& lcount(self.log@, i) == if t.done {
            1nat
        } else {
            0nat
        }
        &&& (!t.done ==> t.resumes <= 1)
        &&& (t.done ==> t.resumes >= 1 && t.finished_at <= self.clock && t.finished_at
            >= job_ready_time(t.job))
        &&& (t.resumes == 0 ==> !t.done && job_fresh(t.job) && e == 1 && forall|m: int|
            0 <= m < self.timers@.len() ==> (#[trigger] self.timers@[m]).task != i)
        &&& match t.job {
            Job::Timer(d) => {
                &&& (!t.done && t.resumes == 1 ==> {
                    &&& d.armed()
                    &&& e <= 1
                    &&& (forall|m: int|
                        0 <= m < self.timers@.len() && (#[trigger] self.timers@[m]).task == i
                            ==> self.timers@[m].fire_at == d.deadline)
                    &&& (e == 0 ==> tcountf(self.timers@, i, d.deadline) >= 1)
                    &&& (e == 1 ==> self.clock == d.deadline)
                })
            },
            Job::NaiveTimer(d) => {
                &&& (!t.done && t.resumes == 1 ==> {
                    &&& e <= 1
                    &&& (forall|m: int|
                        0 <= m < self.timers@.len() && (#[trigger] self.timers@[m]).task == i
                            ==> self.timers@[m].fire_at == d.deadline)
                    &&& (e == 0 ==> tcountf(self.timers@, i, d.deadline) >= 1)
                    &&& (e == 1 ==> self.clock == d.deadline)
                })
            },
            Job::Race(r) => {
                &&& (!t.done && t.resumes == 1 ==> {
                    &&& r.winner is None
                    &&& !r.first.is_fresh() && !r.second.is_fresh()
                    &&& e <= 1
                    &&& (forall|m: int|
                        0 <= m < self.timers@.len() && (#[trigger] self.timers@[m]).task == i
                            ==> self.timers@[m].fire_at >= r.spec_ready_time())
                    &&& (e == 0 ==> tcountf(self.timers@, i, r.spec_ready_time()) >= 1)
                    &&& (e == 1 ==> self.clock == r.spec_ready_time())
                })
                &&& (t.done ==> r.winner == if t.finished_at >= r.first.deadline {
                    Option::Some(RaceWinner::First)
                } else {
                    Option::Some(RaceWinner::Second)
                })
            },
            Job::Inert => {
                &&& !t.done
                &&& (t.resumes == 1 ==> e == 0)
                &&& (forall|m: int|
                    0 <= m < self.timers@.len() ==> (#[trigger] self.timers@[m]).task != i)
            },
        }
    }

    /// The executor's well-formedness: every queue entry, timer and log
    /// line refers to a real task, no timer is set in the past, the log
    /// records each completion exactly once, and each task's
    /// notification bookkeeping is in order.
    pub open spec fn wf(&self) -> bool {
        &&& (forall|k: int| 0 <= k < self.queue@.len() ==> (#[trigger] self.queue@[k])
            < self.tasks@.len())
        &&& (forall|m: int|
            0 <= m < self.timers@.len() ==> (#[trigger] self.timers@[m]).task < self.tasks@.len()
                && self.timers@[m].fire_at >= self.clock)
        &&& (forall|m: int|
            0 <= m < self.log@.len() ==> (#[trigger] self.log@[m]).task < self.tasks@.len()
                && self.log@[m].at == self.tasks@[self.log@[m].task as int].finished_at
                && self.tasks@[self.log@[m].task as int].done)
        &&& (forall|i: int| 0 <= i < self.tasks@.len() ==> self.task_inv(i))
    }

    /// The run loop's termination measure: every queue entry costs one
    /// step, every pending timer a fire and the resulting entry, and
    /// every timer still to be asked for all three.
    pub open spec fn measure(&self) -> int {
        self.queue@.len() + 2 * self.timers@.len() + 3 * potsum(self.tasks@) as int
    }

    /// An executor with no tasks, starting its virtual clock at
    /// `start`.
    pub fn new(start: u64) -> (e: Executor)
        ensures
            e.wf(),
            e.clock == start,
            e.tasks@.len() == 0,
            e.queue@.len() == 0,
            e.timers@.len() == 0,
            e.log@.len() == 0,
    {
        Executor {
            clock: start,
            tasks: Vec::new(),
            queue: Vec::new(),
            timers: Vec::new(),
            log: Vec::new(),
        }
    }

    /// Spawn a computation: wrap it in a task harness and schedule the
    /// task once, immediately.
    pub fn spawn(&mut self, job: Job) -> (i: usize)
        requires
            old(self).wf(),
            job_fresh(job),
        ensures
            final(self).wf(),
            i == old(self).tasks@.len(),
            final(self).tasks@ == old(self).tasks@.push(
                Task { job, done: false, resumes: 0, finished_at: 0 },
            ),
            final(self).queue@ == old(self).queue@.push(i),
            final(self).clock == old(self).clock,
            final(self).timers@ == old(self).timers@,
            final(self).log@ == old(self).log@,
    {
        let i = self.tasks.len();
        let t = Task { job, done: false, resumes: 0, finished_at: 0 };
        self.tasks.push(t);
        self.queue.push(i);
        proof {
            let q0 = old(self).queue@;
            let lg = self.log@;
            assert forall|j: int| 0 <= j < self.tasks@.len() implies self.task_inv(j) by {
                lemma_ecount_push(q0, i, j);
                if j < i {
                    assert(old(self).task_inv(j));
                    assert(ecount(q0, j) == ecount(self.queue@, j));
                    assert(self.tasks@[j] == old(self).tasks@[j]);
                } else {
                    // The new task: fresh, queued exactly once, with no
                    // timers and no log lines in its name yet.
                    lemma_ecount_zero(q0, i as int);
                    assert(ecount(self.queue@, i as int) == 1);
                    lemma_lcount_zero(lg, i as int);
                }
            }
        }
        i
    }
}

proof fn lemma_tcountf_push(ts: Seq<TimerEvent>, x: TimerEvent, t: int, f: u64)
    ensures
        tcountf(ts.push(x), t, f) == tcountf(ts, t, f) + if x.task == t && x.fire_at == f {
            1nat
        } else {
            0nat
        },
    decreases ts.len(),
{
    if ts.len() == 0 {
        assert(ts.push(x).drop_first() =~= ts);
    } else {
        assert(ts.push(x).drop_first() =~= ts.drop_first().push(x));
        lemma_tcountf_push(ts.drop_first(), x, t, f);
    }
}

proof fn lemma_tcountf_remove(ts: Seq<TimerEvent>, k: int, t: int, f: u64)
    requires
        0 <= k < ts.len(),
    ensures
        tcountf(ts.remove(k), t, f) + if ts[k].task == t && ts[k].fire_at == f {
            1nat
        } else {
            0nat
        } == tcountf(ts, t, f),
    decreases ts.len(),
{
    if k == 0 {
        assert(ts.remove(0) =~= ts.drop_first());
    } else {
        assert(ts.remove(k).drop_first() =~= ts.drop_first().remove(k - 1));
        lemma_tcountf_remove(ts.drop_first(), k - 1, t, f);
    }
}

proof fn lemma_tcountf_witness(ts: Seq<TimerEvent>, m: int, t: int, f: u64)
    requires
        0 <= m < ts.len(),
        ts[m].task == t,
        ts[m].fire_at == f,
    ensures
        tcountf(ts, t, f) >= 1,
    decreases m,
{
    if m > 0 {
        assert(ts.drop_first()[m - 1] == ts[m]);
        lemma_tcountf_witness(ts.drop_first(), m - 1, t, f);
    }
}

proof fn lemma_tcountf_pos(ts: Seq<TimerEvent>, t: int, f: u64)
    requires
        tcountf(ts, t, f) >= 1,
    ensures
        exists|m: int|
            0 <= m < ts.len() && (#[trigger] ts[m]).task == t && ts[m].fire_at == f,
    decreases ts.len(),
{
    if ts[0].task == t && ts[0].fire_at == f {
        assert(ts[0].task == t && ts[0].fire_at == f);
    } else {
        lemma_tcountf_pos(ts.drop_first(), t, f);
        let m = choose|m: int|
            0 <= m < ts.drop_first().len() && (#[trigger] ts.drop_first()[m]).task == t
                && ts.drop_first()[m].fire_at == f;
        assert(ts[m + 1].task == t && ts[m + 1].fire_at == f);
    }
}

proof fn lemma_tcountf_extend(ts0: Seq<TimerEvent>, ts1: Seq<TimerEvent>, t0: int, t: int, f: u64)
    requires
        ts1.len() >= ts0.len(),
        forall|m: int| 0 <= m < ts0.len() ==> ts1[m] == ts0[m],
        forall|m: int| ts0.len() <= m < ts1.len() ==> (#[trigger] ts1[m]).task == t0,
        t != t0,
    ensures
        tcountf(ts1, t, f) == tcountf(ts0, t, f),
    decreases ts1.len() - ts0.len(),
{
    if ts1.len() > ts0.len() {
        lemma_tcountf_extend(ts0, ts1.drop_last(), t0, t, f);
        lemma_tcountf_push(ts1.drop_last(), ts1.last(), t, f);
        assert(ts1 =~= ts1.drop_last().push(ts1.last()));
    } else {
        assert(ts1 =~= ts0);
    }
}

proof fn lemma_lcount_zero(lg: Seq<Completion>, t: int)
    ensures
        lcount(lg, t) == 0 <==> forall|m: int| 0 <= m < lg.len() ==> (#[trigger] lg[m]).task != t,
    decreases lg.len(),
{
    if lg.len() > 0 {
        lemma_lcount_zero(lg.drop_first(), t);
        if lcount(lg, t) == 0 {
            assert forall|m: int| 0 <= m < lg.len() implies (#[trigger] lg[m]).task != t by {
                if m > 0 {
                    assert(lg.drop_first()[m - 1] == lg[m]);
                }
            }
        } else {
            if lg[0].task != t {
                let m = choose|m: int|
                    0 <= m < lg.drop_first().len() && (#[trigger] lg.drop_first()[m]).task == t;
                assert(lg[m + 1].task == t);
            }
        }
    }
}

/// Whether two jobs are the same computation shape: the same variant
/// with the same deadlines.  Running the executor changes a task's
/// progress, never its shape.
pub open spec fn job_matches(a: Job, b: Job) -> bool {
    match (a, b) {
        (Job::Timer(x), Job::Timer(y)) => x.deadline == y.deadline,
        (Job::NaiveTimer(x), Job::NaiveTimer(y)) => x.deadline == y.deadline,
        (Job::Race(x), Job::Race(y)) => x.first.deadline == y.first.deadline
            && x.second.deadline == y.second.deadline,
        (Job::Inert, Job::Inert) => true,
        _ => false,
    }
}

/// How a task may evolve over a run that started at clock `c0`: its
/// shape is kept, a done task is left alone, and a task that had never
/// been resumed is first resumed at `c0` — so it either completes at
/// once (deadline already past) or is completed by its own wake-up at
/// its readiness instant, on its second resumption.
pub open spec fn task_evolves(t0: Task, t: Task, c0: u64) -> bool {
    &&& job_matches(t0.job, t.job)
    &&& t.resumes >= t0.resumes
    &&& (t0.done ==> t == t0)
    &&& (t0.resumes == 0 && t.resumes == 0 ==> t == t0)
    &&& (t0.resumes == 0 && t.resumes >= 1 && !(t0.job is Inert) ==> {
        let rt = job_ready_time(t0.job);
        if c0 >= rt {
            t.done && t.resumes == 1 && t.finished_at == c0
        } else {
            t.done ==> t.resumes == 2 && t.finished_at == rt
        }
    })
}

impl Executor {
    /// The index of an earliest-firing pending timer.
    fn min_timer(&self) -> (k: usize)
        requires
            self.timers@.len() > 0,
        ensures
            k < self.timers@.len(),
            forall|j: int|
                0 <= j < self.timers@.len() ==> self.timers@[k as int].fire_at
                    <= (#[trigger] self.timers@[j]).fire_at,
    {
        let mut k: usize = 0;
        let mut j: usize = 1;
        while j < self.timers.len()
            invariant
                k < j <= self.timers@.len(),
                forall|m: int|
                    0 <= m < j ==> self.timers@[k as int].fire_at
                        <= (#[trigger] self.timers@[m]).fire_at,
            decreases self.timers@.len() - j,
        {
            if self.timers[j].fire_at < self.timers[k].fire_at {
                k = j;
            }
            j = j + 1;
        }
        k
    }

    /// The run loop.  Repeatedly take the front task off the ready
    /// queue and resume it; a notification addressed to a task that
    /// already completed is dropped.  When the queue is empty, let the
    /// earliest pending timer fire: the clock advances to its instant
    /// and the task its handle is bound to is re-enqueued.  The loop
    /// terminates once the queue is observed closed — no entry and no
    /// live producer (pending timer) is left.
    ///
    /// Every task that was spawned and never resumed, other than an
    /// inert one, is driven to completion: in a single resumption when
    /// its readiness instant was already past, and otherwise in
    /// exactly two — one to arm it, and one, at its readiness instant,
    /// to complete it.
    #[verifier::loop_isolation(false)]
    #[verifier::rlimit(60)]
    pub fn run(&mut self)
        requires
            old(self).wf(),
        ensures
            final(self).wf(),
            final(self).queue@.len() == 0,
            final(self).timers@.len() == 0,
            final(self).clock >= old(self).clock,
            final(self).tasks@.len() == old(self).tasks@.len(),
            old(self).log@.is_prefix_of(final(self).log@),
            forall|i: int|
                0 <= i < old(self).tasks@.len() ==> task_evolves(
                    old(self).tasks@[i],
                    #[trigger] final(self).tasks@[i],
                    old(self).clock,
                ),
            forall|i: int|
                0 <= i < old(self).tasks@.len() && (#[trigger] old(self).tasks@[i]).resumes == 0
                    && !(old(self).tasks@[i].job is Inert) ==> {
                    let t = final(self).tasks@[i];
                    let rt = job_ready_time(old(self).tasks@[i].job);
                    &&& t.done
                    &&& t.finished_at == if old(self).clock >= rt {
                        old(self).clock
                    } else {
                        rt
                    }
                    &&& t.resumes == if old(self).clock >= rt {
                        1u64
                    } else {
                        2u64
                    }
                },
            forall|i: int|
                0 <= i < old(self).tasks@.len() && (#[trigger] old(self).tasks@[i]).resumes == 0
                    && old(self).tasks@[i].job is Inert ==> !final(self).tasks@[i].done
                    && final(self).tasks@[i].resumes == 1,
            forall|i: int|
                0 <= i < final(self).tasks@.len() ==> ((#[trigger] final(self).tasks@[i]).job
                    matches Job::Race(r) ==> (final(self).tasks@[i].done ==> r.winner
                    == Option::Some(
                    if final(self).tasks@[i].finished_at >= r.first.deadline {
                        RaceWinner::First
                    } else {
                        RaceWinner::Second
                    },
                ))),
    {
        let ghost init = *self;
        while self.queue.len() > 0 || self.timers.len() > 0
            invariant
                self.wf(),
                self.tasks@.len() == init.tasks@.len(),
                self.clock >= init.clock,
                init.log@.is_prefix_of(self.log@),
                forall|i: int|
                    0 <= i < self.tasks@.len() ==> task_evolves(
                        init.tasks@[i],
                        #[trigger] self.tasks@[i],
                        init.clock,
                    ),
                (exists|i: int|
                    0 <= i < self.tasks@.len() && (#[trigger] self.tasks@[i]).resumes == 0)
                    ==> self.clock == init.clock,
            decreases self.measure(),
        {
            let ghost pre = *self;
            if self.queue.len() > 0 {
                let i = self.queue.remove(0);
                proof {
                    assert(pre.queue@.remove(0) =~= pre.queue@.drop_first());
                }
                if self.tasks[i].done {
                    // A notification for a task that already completed:
                    // absorbed silently.
                    proof {
                        assert forall|j: int|
                            0 <= j < self.tasks@.len() implies self.task_inv(j) by {
                            assert(pre.task_inv(j));
                        }
                    }
                } else {
                    proof {
                        // The popped task is live: its computation has not
                        // completed and it was resumed at most once.
                        assert(pre.task_inv(i as int));
                    }
                    let now = self.clock;
                    let h = i as u64;
                    let mut task = self.tasks[i];
                    let ghost t_pre = task;
                    let mut spawns: Vec<TimerRequest> = Vec::new();
                    let ready: bool;
                    match task.job {
                        Job::Timer(d0) => {
                            let mut d = d0;
                            let r = d.resume(now, h);
                            ready = r.0.is_ready();
                            spawns = r.1;
                            task.job = Job::Timer(d);
                        },
                        Job::NaiveTimer(d0) => {
                            let mut d = d0;
                            let r = d.resume(now, h);
                            ready = r.0.is_ready();
                            spawns = r.1;
                            task.job = Job::NaiveTimer(d);
                        },
                        Job::Race(r0) => {
                            let mut rc = r0;
                            let r = rc.resume(now, h);
                            ready = r.0.is_ready();
                            spawns = r.1;
                            task.job = Job::Race(rc);
                        },
                        Job::Inert => {
                            ready = false;
                        },
                    }
                    task.resumes = task.resumes + 1;
                    if ready {
                        task.done = true;
                        task.finished_at = now;
                    }
                    self.tasks[i] = task;
                    if ready {
                        self.log.push(Completion { task: i, at: now });
                    }
                    let ghost ts0 = self.timers@;
                    let mut k: usize = 0;
                    while k < spawns.len()
                        invariant
                            k <= spawns@.len(),
                            self.timers@.len() == ts0.len() + k,
                            forall|m: int|
                                0 <= m < ts0.len() ==> (#[trigger] self.timers@[m]) == ts0[m],
                            forall|m: int|
                                ts0.len() <= m < self.timers@.len() ==> (#[trigger] self.timers@[
                                    m
                                ]) == (TimerEvent {
                                    fire_at: spawns@[m - ts0.len()].fire_at,
                                    task: i,
                                }),
                            self.queue@ == pre.queue@.drop_first(),
                            self.tasks@ == pre.tasks@.update(i as int, task),
                            self.clock == pre.clock,
                            self.log@ == if ready {
                                pre.log@.push(Completion { task: i, at: now })
                            } else {
                                pre.log@
                            },
                        decreases spawns@.len() - k,
                    {
                        let req = spawns[k];
                        self.timers.push(TimerEvent { fire_at: req.fire_at, task: i });
                        k = k + 1;
                    }
                    proof {
                        let iv = i as int;
                        let ts1 = self.timers@;
                        assert(ts0 == pre.timers@);
                        assert(pre.task_inv(iv));
                        assert(pre.queue@[0] == i);
                        assert(ecount(pre.queue@, iv) == 1 + ecount(self.queue@, iv));
                        lemma_lcount_zero(pre.log@, iv);
                        assert forall|j: int|
                            0 <= j < self.tasks@.len() implies self.task_inv(j) by {
                            assert(pre.task_inv(j));
                            if ready {
                                lemma_lcount_push(pre.log@, Completion { task: i, at: now }, j);
                            }
                            if j != iv {
                                assert(self.tasks@[j] == pre.tasks@[j]);
                                assert(ecount(self.queue@, j) == ecount(pre.queue@, j));
                                match pre.tasks@[j].job {
                                    Job::Timer(d) => {
                                        lemma_tcountf_extend(ts0, ts1, iv, j, d.deadline);
                                    },
                                    Job::NaiveTimer(d) => {
                                        lemma_tcountf_extend(ts0, ts1, iv, j, d.deadline);
                                    },
                                    Job::Race(r) => {
                                        lemma_tcountf_extend(ts0, ts1, iv, j, r.spec_ready_time());
                                    },
                                    Job::Inert => {},
                                }
                            } else {
                                match t_pre.job {
                                    Job::Timer(d0) => {
                                        if t_pre.resumes == 0 {
                                            if now < d0.deadline {
                                                assert(ts1[ts0.len() as int] == (TimerEvent {
                                                    fire_at: d0.deadline,
                                                    task: i,
                                                }));
                                                lemma_tcountf_witness(
                                                    ts1,
                                                    ts0.len() as int,
                                                    iv,
                                                    d0.deadline,
                                                );
                                            }
                                        } else {
                                            assert(pre.clock == d0.deadline);
                                        }
                                    },
                                    Job::NaiveTimer(d0) => {
                                        if t_pre.resumes == 0 {
                                            if now < d0.deadline {
                                                assert(ts1[ts0.len() as int] == (TimerEvent {
                                                    fire_at: d0.deadline,
                                                    task: i,
                                                }));
                                                lemma_tcountf_witness(
                                                    ts1,
                                                    ts0.len() as int,
                                                    iv,
                                                    d0.deadline,
                                                );
                                            }
                                        } else {
                                            assert(pre.clock == d0.deadline);
                                        }
                                    },
                                    Job::Race(r0) => {
                                        if t_pre.resumes == 0 {
                                            if now < r0.spec_ready_time() {
                                                assert(crate::suspend::has_wake_at(
                                                    spawns@,
                                                    r0.spec_ready_time(),
                                                ));
                                                let kk = choose|kk: int|
                                                    0 <= kk < spawns@.len() && (#[trigger] spawns@[
                                                        kk
                                                    ]).fire_at == r0.spec_ready_time();
                                                assert(ts1[ts0.len() + kk] == (TimerEvent {
                                                    fire_at: spawns@[kk].fire_at,
                                                    task: i,
                                                }));
                                                lemma_tcountf_witness(
                                                    ts1,
                                                    ts0.len() + kk,
                                                    iv,
                                                    r0.spec_ready_time(),
                                                );
                                            }
                                        } else {
                                            assert(pre.clock == r0.spec_ready_time());
                                        }
                                    },
                                    Job::Inert => {
                                        if t_pre.resumes != 0 {
                                            assert(ecount(pre.queue@, iv) == 0);
                                        }
                                    },
                                }
                            }
                        }
                        lemma_potsum_update(pre.tasks@, iv, task);
                        assert(task_pot(task) + spawns@.len() <= task_pot(t_pre));
                        if t_pre.resumes == 0 {
                            assert(pre.tasks@[iv].resumes == 0);
                            assert(pre.clock == init.clock);
                        }
                        assert(task_evolves(init.tasks@[iv], task, init.clock));
                        assert(self.log@.subrange(0, init.log@.len() as int) =~= pre.log@.subrange(
                            0,
                            init.log@.len() as int,
                        ));
                        assert(init.log@.is_prefix_of(self.log@));
                    }
                }
            } else {
                let k = self.min_timer();
                let tm = self.timers[k];
                let ghost ts_pre = self.timers@;
                let _ = self.timers.remove(k);
                self.clock = tm.fire_at;
                self.queue.push(tm.task);
                proof {
                    let it = tm.task as int;
                    assert(ts_pre[k as int] == tm);
                    assert(self.timers@ == ts_pre.remove(k as int));
                    assert(pre.queue@.len() == 0);
                    assert forall|j: int|
                        0 <= j < self.tasks@.len() implies (#[trigger] self.tasks@[j]).resumes
                        != 0 by {
                        assert(pre.task_inv(j));
                        assert(ecount(pre.queue@, j) == 0);
                    }
                    assert forall|j: int| 0 <= j < self.tasks@.len() implies self.task_inv(j) by {
                        assert(pre.task_inv(j));
                        lemma_ecount_push(pre.queue@, tm.task, j);
                        match pre.tasks@[j].job {
                            Job::Timer(d) => {
                                lemma_tcountf_remove(ts_pre, k as int, j, d.deadline);
                            },
                            Job::NaiveTimer(d) => {
                                lemma_tcountf_remove(ts_pre, k as int, j, d.deadline);
                            },
                            Job::Race(r) => {
                                lemma_tcountf_remove(ts_pre, k as int, j, r.spec_ready_time());
                                if j == it && !pre.tasks@[j].done && pre.tasks@[j].resumes == 1 {
                                    // The race's earliest wake-up is still
                                    // pending, and the fired timer is a
                                    // global minimum, so it fires exactly
                                    // at the race's readiness instant.
                                    lemma_tcountf_pos(ts_pre, j, r.spec_ready_time());
                                    let m1 = choose|m1: int|
                                        0 <= m1 < ts_pre.len() && (#[trigger] ts_pre[m1]).task == j
                                            && ts_pre[m1].fire_at == r.spec_ready_time();
                                    assert(tm.fire_at <= ts_pre[m1].fire_at);
                                }
                            },
                            Job::Inert => {},
                        }
                    }
                    assert(self.measure() < pre.measure());
                    assert(init.log@.is_prefix_of(self.log@));
                }
            }
        }
        proof {
            assert forall|i: int|
                0 <= i < self.tasks@.len() implies (#[trigger] self.tasks@[i]).resumes >= 1 && (!(
            self.tasks@[i].job is Inert) ==> self.tasks@[i].done) by {
                assert(self.task_inv(i));
                assert(ecount(self.queue@, i) == 0);
                let t = self.tasks@[i];
                if !t.done {
                    match t.job {
                        Job::Timer(d) => {
                            assert(tcountf(self.timers@, i, d.deadline) == 0);
                        },
                        Job::NaiveTimer(d) => {
                            assert(tcountf(self.timers@, i, d.deadline) == 0);
                        },
                        Job::Race(r) => {
                            assert(tcountf(self.timers@, i, r.spec_ready_time()) == 0);
                        },
                        Job::Inert => {},
                    }
                }
            }
            assert forall|i: int|
                0 <= i < init.tasks@.len() && (#[trigger] init.tasks@[i]).resumes == 0
                    && init.tasks@[i].job is Inert implies !self.tasks@[i].done && self.tasks@[
            i].resumes == 1 by {
                assert(self.task_inv(i));
                assert(task_evolves(init.tasks@[i], self.tasks@[i], init.clock));
            }
            assert forall|i: int|
                0 <= i < init.tasks@.len() && (#[trigger] init.tasks@[i]).resumes == 0 && !(
            init.tasks@[i].job is Inert) implies {
                let t = self.tasks@[i];
                let rt = job_ready_time(init.tasks@[i].job);
                &&& t.done
                &&& t.finished_at == if init.clock >= rt {
                    init.clock
                } else {
                    rt
                }
                &&& t.resumes == if init.clock >= rt {
                    1u64
                } else {
                    2u64
                }
            } by {
                assert(self.task_inv(i));
                assert(task_evolves(init.tasks@[i], self.tasks@[i], init.clock));
            }
            assert forall|i: int|
                0 <= i < self.tasks@.len() implies ((#[trigger] self.tasks@[i]).job matches
            Job::Race(r) ==> (self.tasks@[i].done ==> r.winner == Option::Some(
                if self.tasks@[i].finished_at >= r.first.deadline {
                    RaceWinner::First
                } else {
                    RaceWinner::Second
                },
            ))) by {
                assert(self.task_inv(i));
            }
        }
    }
}

} // verus!
