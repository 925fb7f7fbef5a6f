//! The suspended-computation contract.
//!
//! A suspended computation is something that, when resumed, either
//! completes with a value or reports "not yet, notify me later".  A
//! resumption is handed a notification handle (an opaque identifier);
//! if the computation is not ready it may ask its caller to arm a
//! background timer that will invoke that handle once a deadline has
//! passed.

use vstd::prelude::*;

verus! {

/// The outcome of resuming a suspended computation: either it finished
/// with a value, or it will make progress later.
#[derive(Clone, Copy)]
pub enum Resume<T> {
    Ready(T),
    Pending,
}

impl<T> Resume<T> {
    /// True when the resumption completed.
    pub fn is_ready(&self) -> (r: bool)
        ensures
            r <==> self is Ready,
    {
        match self {
            Resume::Ready(_) => true,
            Resume::Pending => false,
        }
    }

    /// True when the resumption reported "not yet".
    pub fn is_pending(&self) -> (r: bool)
        ensures
            r <==> self is Pending,
    {
        match self {
            Resume::Ready(_) => false,
            Resume::Pending => true,
        }
    }
}

/// A request, issued by a pending resumption, to start one background
/// timer: sleep until `fire_at`, then invoke the notification handle
/// `handle` once.
#[derive(Clone, Copy)]
pub struct TimerRequest {
    pub fire_at: u64,
    pub handle: u64,
}

/// True when one of the timer requests fires at instant `t`: whoever
/// arms them all is guaranteed a notification at `t`.
pub open spec fn has_wake_at(spawns: Seq<TimerRequest>, t: u64) -> bool {
    exists|k: int| 0 <= k < spawns.len() && (#[trigger] spawns[k]).fire_at == t
}

/// The contract every schedulable computation implements.
///
/// `attempt` is handed the current time and a notification handle bound
/// to the resuming task.  It returns the resumption outcome together
/// with the timer requests the caller must arm on the computation's
/// behalf.  Readiness of the computations modelled here is a function
/// of time alone: `ready_time` names the instant from which an attempt
/// completes, and completion happens exactly at the first attempt made
/// at or after that instant.
pub trait Suspended: Sized {
    type Output;

    /// Whether the computation has already completed.  A completed
    /// computation must never be resumed again.
    spec fn completed(&self) -> bool;

    /// The instant from which an attempt reports completion.  It never
    /// changes over the computation's lifetime.
    spec fn ready_time(&self) -> u64;

    /// An upper bound on the number of timers the computation may still
    /// ask for.  It never grows, and every issued request is paid for.
    spec fn spawn_budget(&self) -> nat;

    /// True while the computation has never been resumed.
    spec fn fresh(&self) -> bool;

    /// Resume the computation at time `now`, on behalf of the task that
    /// `handle` notifies.
    fn attempt(&mut self, now: u64, handle: u64) -> (r: (Resume<Self::Output>, Vec<TimerRequest>))
        requires
            !old(self).completed(),
        ensures
            final(self).ready_time() == old(self).ready_time(),
            final(self).completed() <==> now >= old(self).ready_time(),
            r.0 is Ready <==> final(self).completed(),
            final(self).spawn_budget() + r.1@.len() <= old(self).spawn_budget(),
            forall|k: int|
                0 <= k < r.1@.len() ==> (#[trigger] r.1@[k]).handle == handle
                    && r.1@[k].fire_at > now && r.1@[k].fire_at >= old(self).ready_time(),
            old(self).fresh() && r.0 is Pending ==> has_wake_at(r.1@, old(self).ready_time()),
            !final(self).fresh(),
    ;
}

} // verus!
