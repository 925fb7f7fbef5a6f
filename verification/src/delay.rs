//! The timer resource: a suspended computation that becomes ready once
//! a deadline has passed.
//!
//! Two variants are provided.  [`NaiveDelayCore`] asks for a fresh
//! background timer on every resumption that finds the deadline still
//! in the future; all but the last timer are redundant, though each
//! still fires harmlessly.  [`DelayCore`] caches the notification
//! handle of its first resumption and asks for exactly one timer; later
//! resumptions merely refresh the cached handle when the resuming task
//! has changed, so the one timer always notifies the current waiter.

use vstd::prelude::*;

use crate::suspend::Resume;
use crate::suspend::Suspended;
use crate::suspend::TimerRequest;

verus! {

/// The state of a cached-handle timer resource after one resumption at
/// time `now` with notification handle `handle`.  It completes exactly
/// when the deadline has passed; a first resumption before the
/// deadline caches the handle, and later resumptions refresh the
/// cache.
pub open spec fn delay_step_state(s: DelayCore, now: u64, handle: u64) -> DelayCore {
    DelayCore {
        deadline: s.deadline,
        cached: if s.is_fresh() && now >= s.deadline {
            None
        } else {
            Some(handle)
        },
        done: s.done || now >= s.deadline,
    }
}

/// How many background timers one resumption at time `now` requests:
/// one on a first resumption before the deadline, none otherwise.
pub open spec fn delay_step_spawns(s: DelayCore, now: u64) -> nat {
    if s.is_fresh() && now < s.deadline {
        1
    } else {
        0
    }
}

/// The state after a whole sequence of resumptions, each given as a
/// `(now, handle)` pair.
pub open spec fn delay_run_state(s: DelayCore, steps: Seq<(u64, u64)>) -> DelayCore
    decreases steps.len(),
{
    if steps.len() == 0 {
        s
    } else {
        delay_run_state(delay_step_state(s, steps[0].0, steps[0].1), steps.drop_first())
    }
}

/// The total number of background timers a sequence of resumptions
/// requests.
pub open spec fn delay_run_spawns(s: DelayCore, steps: Seq<(u64, u64)>) -> nat
    decreases steps.len(),
{
    if steps.len() == 0 {
        0
    } else {
        delay_step_spawns(s, steps[0].0) + delay_run_spawns(
            delay_step_state(s, steps[0].0, steps[0].1),
            steps.drop_first(),
        )
    }
}

/// The number of resumptions in the sequence that report completion.
pub open spec fn delay_run_completions(s: DelayCore, steps: Seq<(u64, u64)>) -> nat
    decreases steps.len(),
{
    if steps.len() == 0 {
        0
    } else {
        (if !s.done && steps[0].0 >= s.deadline {
            1nat
        } else {
            0nat
        }) + delay_run_completions(delay_step_state(s, steps[0].0, steps[0].1), steps.drop_first())
    }
}

/// True when the sequence of resumptions respects the contract that a
/// completed computation is never resumed again.
pub open spec fn delay_admissible(s: DelayCore, steps: Seq<(u64, u64)>) -> bool
    decreases steps.len(),
{
    steps.len() == 0 || (!s.done && delay_admissible(
        delay_step_state(s, steps[0].0, steps[0].1),
        steps.drop_first(),
    ))
}

/// However often an armed timer resource is resumed before its
/// deadline, it stays pending and never requests a second background
/// timer.
pub proof fn lemma_armed_requests_nothing(s: DelayCore, steps: Seq<(u64, u64)>)
    requires
        s.armed(),
        forall|i: int| 0 <= i < steps.len() ==> (#[trigger] steps[i]).0 < s.deadline,
    ensures
        delay_run_spawns(s, steps) == 0,
        delay_run_state(s, steps).armed(),
        delay_run_state(s, steps).deadline == s.deadline,
    decreases steps.len(),
{
    if steps.len() > 0 {
        let s1 = delay_step_state(s, steps[0].0, steps[0].1);
        assert(forall|i: int|
            0 <= i < steps.drop_first().len() ==> (#[trigger] steps.drop_first()[i]).0
                < s1.deadline);
        lemma_armed_requests_nothing(s1, steps.drop_first());
    }
}

/// A fresh timer resource resumed any positive number of times before
/// its deadline requests exactly one background timer — the first
/// resumption's — and is still pending afterwards.
pub proof fn lemma_single_timer(s: DelayCore, steps: Seq<(u64, u64)>)
    requires
        s.is_fresh(),
        steps.len() > 0,
        forall|i: int| 0 <= i < steps.len() ==> (#[trigger] steps[i]).0 < s.deadline,
    ensures
        delay_run_spawns(s, steps) == 1,
        delay_run_state(s, steps).armed(),
        delay_run_state(s, steps).deadline == s.deadline,
{
    let s1 = delay_step_state(s, steps[0].0, steps[0].1);
    assert(forall|i: int|
        0 <= i < steps.drop_first().len() ==> (#[trigger] steps.drop_first()[i]).0 < s1.deadline);
    lemma_armed_requests_nothing(s1, steps.drop_first());
}

/// Across any admissible sequence of resumptions, a timer resource
/// reports at most one completion; it reports one exactly when some
/// resumption happens at or after the deadline, and that resumption is
/// never earlier than the deadline.
pub proof fn lemma_one_completion(s: DelayCore, steps: Seq<(u64, u64)>)
    requires
        !s.done,
        delay_admissible(s, steps),
    ensures
        delay_run_completions(s, steps) <= 1,
        delay_run_completions(s, steps) == 1 <==> exists|i: int|
            0 <= i < steps.len() && (#[trigger] steps[i]).0 >= s.deadline,
    decreases steps.len(),
{
    if steps.len() > 0 {
        let s1 = delay_step_state(s, steps[0].0, steps[0].1);
        if steps[0].0 >= s.deadline {
            // The first resumption completes; admissibility forbids any
            // further resumption, so no second completion can follow.
            assert(s1.done);
            assert(delay_admissible(s1, steps.drop_first()));
            if steps.drop_first().len() > 0 {
                assert(!s1.done);
            }
            assert(steps.drop_first().len() == 0);
        } else {
            lemma_one_completion(s1, steps.drop_first());
            if exists|i: int|
                0 <= i < steps.drop_first().len() && (#[trigger] steps.drop_first()[i]).0
                    >= s1.deadline {
                let i = choose|i: int|
                    0 <= i < steps.drop_first().len() && (#[trigger] steps.drop_first()[i]).0
                        >= s1.deadline;
                assert(steps[i + 1].0 >= s.deadline);
            }
            if exists|i: int| 0 <= i < steps.len() && (#[trigger] steps[i]).0 >= s.deadline {
                let i = choose|i: int|
                    0 <= i < steps.len() && (#[trigger] steps[i]).0 >= s.deadline;
                assert(i >= 1);
                assert(steps.drop_first()[i - 1].0 >= s1.deadline);
            }
        }
    }
}

/// The cached-handle timer resource.
///
/// States: unarmed (`cached` is `None`, not done), armed (`cached`
/// holds the handle the background timer will invoke), and done.
#[derive(Clone, Copy)]
pub struct DelayCore {
    /// The absolute deadline, in virtual milliseconds.
    pub deadline: u64,
    /// The cached notification handle; `None` until the first
    /// resumption arms the timer.
    pub cached: Option<u64>,
    /// Whether completion has been reported.
    pub done: bool,
}

impl DelayCore {
    /// True while the timer thread has been asked for and completion
    /// has not been reported yet.
    pub open spec fn armed(&self) -> bool {
        self.cached is Some && !self.done
    }

    /// True before the first resumption.
    pub open spec fn is_fresh(&self) -> bool {
        self.cached is None && !self.done
    }

    /// Create a timer resource for an absolute deadline.  Only a
    /// deadline is stored: no timer is armed and no handle is cached.
    pub fn new(deadline: u64) -> (d: DelayCore)
        ensures
            d.deadline == deadline,
            d.is_fresh(),
    {
        DelayCore { deadline, cached: None, done: false }
    }

    /// Resume the timer resource at time `now` on behalf of the task
    /// that `handle` notifies.
    ///
    /// Completion is reported exactly when the deadline has passed.  On
    /// a first resumption before the deadline, the handle is cached and
    /// exactly one background timer is requested; on later resumptions
    /// the cache is refreshed to the current handle and no further
    /// timer is requested.
    pub fn resume(&mut self, now: u64, handle: u64) -> (r: (Resume<()>, Vec<TimerRequest>))
        requires
            !old(self).done,
        ensures
            *final(self) == delay_step_state(*old(self), now, handle),
            r.1@.len() == delay_step_spawns(*old(self), now),
            final(self).deadline == old(self).deadline,
            final(self).done <==> now >= old(self).deadline,
            r.0 is Ready <==> final(self).done,
            final(self).cached == if old(self).is_fresh() && now >= old(self).deadline {
                Option::<u64>::None
            } else {
                Option::<u64>::Some(handle)
            },
            r.1@.len() == if old(self).is_fresh() && now < old(self).deadline {
                1int
            } else {
                0int
            },
            old(self).is_fresh() && now < old(self).deadline ==> r.1@[0]
                == (TimerRequest { fire_at: old(self).deadline, handle }),
    {
        let mut spawns: Vec<TimerRequest> = Vec::new();
        match self.cached {
            Option::None => {
                if now >= self.deadline {
                    // The deadline was already past at the first
                    // resumption: complete without arming anything.
                    self.done = true;
                } else {
                    // First resumption: cache the handle and ask for
                    // the one background timer.
                    self.cached = Some(handle);
                    spawns.push(TimerRequest { fire_at: self.deadline, handle });
                }
            },
            Option::Some(_) => {
                // Re-point the already-armed timer at the current
                // waiter, then re-check the deadline.  Overwriting an
                // equal handle is a no-op, so no comparison is needed
                // in the model, where handles carry their identity.
                self.cached = Some(handle);
                if now >= self.deadline {
                    self.done = true;
                }
            },
        }
        if self.done {
            (Resume::Ready(()), spawns)
        } else {
            (Resume::Pending, spawns)
        }
    }
}

impl Suspended for DelayCore {
    type Output = ();

    open spec fn completed(&self) -> bool {
        self.done
    }

    open spec fn ready_time(&self) -> u64 {
        self.deadline
    }

    open spec fn spawn_budget(&self) -> nat {
        if self.is_fresh() {
            1
        } else {
            0
        }
    }

    open spec fn fresh(&self) -> bool {
        self.is_fresh()
    }

    fn attempt(&mut self, now: u64, handle: u64) -> (r: (Resume<()>, Vec<TimerRequest>)) {
        self.resume(now, handle)
    }
}

/// The state of a naive timer resource after one resumption at time
/// `now`: it completes exactly when the deadline has passed and keeps
/// no other state.
pub open spec fn naive_step_state(s: NaiveDelayCore, now: u64) -> NaiveDelayCore {
    NaiveDelayCore { deadline: s.deadline, done: s.done || now >= s.deadline }
}

/// How many background timers one naive resumption at time `now`
/// requests: one whenever the deadline is still in the future.
pub open spec fn naive_step_spawns(s: NaiveDelayCore, now: u64) -> nat {
    if !s.done && now < s.deadline {
        1
    } else {
        0
    }
}

/// The total number of background timers a sequence of naive
/// resumptions, given by their times, requests.
pub open spec fn naive_run_spawns(s: NaiveDelayCore, steps: Seq<u64>) -> nat
    decreases steps.len(),
{
    if steps.len() == 0 {
        0
    } else {
        naive_step_spawns(s, steps[0]) + naive_run_spawns(
            naive_step_state(s, steps[0]),
            steps.drop_first(),
        )
    }
}

/// The naive variant's waste, exactly: every resumption made before
/// the deadline requests one more background timer, so a sequence of
/// such resumptions requests one timer per attempt.
pub proof fn lemma_naive_timer_per_attempt(s: NaiveDelayCore, steps: Seq<u64>)
    requires
        !s.done,
        forall|i: int| 0 <= i < steps.len() ==> (#[trigger] steps[i]) < s.deadline,
    ensures
        naive_run_spawns(s, steps) == steps.len(),
        !naive_run_state_done(s, steps),
    decreases steps.len(),
{
    if steps.len() > 0 {
        let s1 = naive_step_state(s, steps[0]);
        assert(forall|i: int|
            0 <= i < steps.drop_first().len() ==> (#[trigger] steps.drop_first()[i])
                < s1.deadline);
        lemma_naive_timer_per_attempt(s1, steps.drop_first());
    }
}

/// Whether a sequence of naive resumptions ends with the resource
/// completed.
pub open spec fn naive_run_state_done(s: NaiveDelayCore, steps: Seq<u64>) -> bool
    decreases steps.len(),
{
    if steps.len() == 0 {
        s.done
    } else {
        naive_run_state_done(naive_step_state(s, steps[0]), steps.drop_first())
    }
}

/// The naive timer resource: no cache, no memory of earlier
/// resumptions.  Every resumption that finds the deadline in the
/// future asks for one more background timer bound to that
/// resumption's handle.
#[derive(Clone, Copy)]
pub struct NaiveDelayCore {
    /// The absolute deadline, in virtual milliseconds.
    pub deadline: u64,
    /// Whether completion has been reported.
    pub done: bool,
}

impl NaiveDelayCore {
    /// Create a naive timer resource for an absolute deadline.
    pub fn new(deadline: u64) -> (d: NaiveDelayCore)
        ensures
            d.deadline == deadline,
            !d.done,
    {
        NaiveDelayCore { deadline, done: false }
    }

    /// Resume the naive timer resource at time `now`.  Before the
    /// deadline every resumption requests a fresh timer; at or after
    /// the deadline it completes and requests nothing.
    pub fn resume(&mut self, now: u64, handle: u64) -> (r: (Resume<()>, Vec<TimerRequest>))
        requires
            !old(self).done,
        ensures
            *final(self) == naive_step_state(*old(self), now),
            r.1@.len() == naive_step_spawns(*old(self), now),
            final(self).deadline == old(self).deadline,
            final(self).done <==> now >= old(self).deadline,
            r.0 is Ready <==> final(self).done,
            now < old(self).deadline ==> r.1@[0]
                == (TimerRequest { fire_at: old(self).deadline, handle }),
    {
        let mut spawns: Vec<TimerRequest> = Vec::new();
        if now >= self.deadline {
            self.done = true;
            (Resume::Ready(()), spawns)
        } else {
            spawns.push(TimerRequest { fire_at: self.deadline, handle });
            (Resume::Pending, spawns)
        }
    }
}

} // verus!
