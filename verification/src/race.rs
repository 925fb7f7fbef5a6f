//! The minimal multiplexed wait: race two suspended computations.
//!
//! On each resumption the composite attempts its first child; if that
//! child is ready the composite is done and the result is tagged
//! "first".  Otherwise it attempts the second child, tagging a ready
//! result "second".  If neither is ready it reports pending, having
//! passed the same notification handle to both children, so a wake
//! from either side re-triggers a fresh attempt at both.  Exactly one
//! child's result is ever reported; once the composite completes, the
//! other child is abandoned and never resumed again.

use vstd::prelude::*;

use crate::suspend::Resume;
use crate::suspend::Suspended;
use crate::suspend::TimerRequest;

verus! {

/// Which child won the race.
#[derive(Clone, Copy, Debug, PartialEq, Eq, Structural)]
pub enum RaceWinner {
    First,
    Second,
}

/// The reported result of a race: the winning child's value, tagged
/// with its side.
pub enum RaceResult<X, Y> {
    First(X),
    Second(Y),
}

/// A composite computation over exactly two children.
#[derive(Clone, Copy)]
pub struct RaceCore<A, B> {
    /// The child attempted first on every resumption.
    pub first: A,
    /// The child attempted when the first is not ready.
    pub second: B,
    /// The side whose result was reported, once the race is done.
    pub winner: Option<RaceWinner>,
}

impl<A: Suspended, B: Suspended> RaceCore<A, B> {
    /// The earlier of the two children's readiness instants.
    pub open spec fn spec_ready_time(&self) -> u64 {
        if self.first.ready_time() <= self.second.ready_time() {
            self.first.ready_time()
        } else {
            self.second.ready_time()
        }
    }

    /// Build a race over two children that have not completed yet.
    pub fn new(first: A, second: B) -> (r: RaceCore<A, B>)
        requires
            !first.completed(),
            !second.completed(),
        ensures
            r.first == first,
            r.second == second,
            r.winner is None,
    {
        RaceCore { first, second, winner: None }
    }

    /// Resume the race at time `now`.  The same handle is handed to
    /// both children, and their timer requests are passed through to
    /// the caller.  The race completes exactly at the first resumption
    /// made at or after the earlier child's readiness instant, tagged
    /// "first" when the first child was ready at that instant and
    /// "second" otherwise.
    pub fn resume(&mut self, now: u64, handle: u64) -> (r: (
        Resume<RaceResult<A::Output, B::Output>>,
        Vec<TimerRequest>,
    ))
        requires
            !old(self).completed(),
        ensures
            final(self).first.ready_time() == old(self).first.ready_time(),
            final(self).second.ready_time() == old(self).second.ready_time(),
            final(self).completed() <==> now >= old(self).spec_ready_time(),
            r.0 is Ready <==> final(self).completed(),
            final(self).winner == if now >= old(self).first.ready_time() {
                Option::Some(RaceWinner::First)
            } else if now >= old(self).second.ready_time() {
                Option::Some(RaceWinner::Second)
            } else {
                Option::<RaceWinner>::None
            },
            final(self).spawn_budget() + r.1@.len() <= old(self).spawn_budget(),
            forall|k: int|
                0 <= k < r.1@.len() ==> (#[trigger] r.1@[k]).handle == handle
                    && r.1@[k].fire_at > now && r.1@[k].fire_at >= old(self).spec_ready_time(),
            old(self).fresh() && r.0 is Pending ==> crate::suspend::has_wake_at(
                r.1@,
                old(self).spec_ready_time(),
            ),
            r.0 is Pending ==> !final(self).first.fresh() && !final(self).second.fresh(),
            !final(self).fresh(),
    {
        let (ra, mut spawns) = self.first.attempt(now, handle);
        match ra {
            Resume::Ready(x) => {
                self.winner = Some(RaceWinner::First);
                (Resume::Ready(RaceResult::First(x)), spawns)
            },
            Resume::Pending => {
                let ghost sa = spawns@;
                let (rb, mut sb) = self.second.attempt(now, handle);
                let ghost sbv = sb@;
                spawns.append(&mut sb);
                match rb {
                    Resume::Ready(y) => {
                        self.winner = Some(RaceWinner::Second);
                        (Resume::Ready(RaceResult::Second(y)), spawns)
                    },
                    Resume::Pending => {
                        proof {
                            // Point at the timer request that fires at the
                            // earlier readiness instant: it came from the
                            // first child when that child is the earlier
                            // one, and from the second child otherwise.
                            if old(self).fresh() {
                                if old(self).first.ready_time() <= old(
                                    self,
                                ).second.ready_time() {
                                    let k = choose|k: int|
                                        0 <= k < sa.len() && (#[trigger] sa[k]).fire_at == old(
                                            self,
                                        ).first.ready_time();
                                    assert(spawns@[k].fire_at == old(self).spec_ready_time());
                                } else {
                                    let k = choose|k: int|
                                        0 <= k < sbv.len() && (#[trigger] sbv[k]).fire_at == old(
                                            self,
                                        ).second.ready_time();
                                    assert(spawns@[sa.len() + k].fire_at == old(
                                        self,
                                    ).spec_ready_time());
                                }
                                assert(crate::suspend::has_wake_at(
                                    spawns@,
                                    old(self).spec_ready_time(),
                                ));
                            }
                        }
                        (Resume::Pending, spawns)
                    },
                }
            },
        }
    }
}

impl<A: Suspended, B: Suspended> Suspended for RaceCore<A, B> {
    type Output = RaceResult<A::Output, B::Output>;

    /// The race is completed once a winner was reported.  A child that
    /// completed on its own also counts: children only ever complete
    /// in the resumption that decides the race.
    open spec fn completed(&self) -> bool {
        self.winner is Some || self.first.completed() || self.second.completed()
    }

    open spec fn ready_time(&self) -> u64 {
        self.spec_ready_time()
    }

    open spec fn spawn_budget(&self) -> nat {
        if self.winner is Some {
            0
        } else {
            self.first.spawn_budget() + self.second.spawn_budget()
        }
    }

    open spec fn fresh(&self) -> bool {
        self.winner is None && self.first.fresh() && self.second.fresh()
    }

    fn attempt(&mut self, now: u64, handle: u64) -> (r: (
        Resume<RaceResult<A::Output, B::Output>>,
        Vec<TimerRequest>,
    )) {
        self.resume(now, handle)
    }
}

} // verus!
