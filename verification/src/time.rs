//! Lengths of time and moments, both counted in nanoseconds.

use vstd::prelude::*;

verus! {

/// How many nanoseconds a second has.
pub const NANOS_PER_SEC: u128 = 1_000_000_000;

/// How many nanoseconds a millisecond has.
pub const NANOS_PER_MILLI: u128 = 1_000_000;

/// A length of time.
#[derive(Clone, Copy, Debug, Hash, PartialEq, Eq, Structural)]
pub struct Duration {
    pub nanos: u128,
}

impl Duration {
    pub fn from_secs(secs: u64) -> (duration: Self)
        ensures
            duration.nanos == secs * NANOS_PER_SEC,
    {
        Duration { nanos: secs as u128 * NANOS_PER_SEC }
    }

    pub fn from_millis(millis: u64) -> (duration: Self)
        ensures
            duration.nanos == millis * NANOS_PER_MILLI,
    {
        Duration { nanos: millis as u128 * NANOS_PER_MILLI }
    }
}

/// A moment, counted from a start that is the same for all moments that get compared.
#[derive(Clone, Copy, Debug, Hash, PartialEq, Eq, Structural)]
pub struct Instant {
    pub nanos: u128,
}

impl Instant {
    /// How much time has passed at the moment `now`, which is none if `now` lies before `self`.
    pub open spec fn elapsed_spec(self, now: Instant) -> Duration {
        Duration { nanos: if now.nanos >= self.nanos { (now.nanos - self.nanos) as u128 } else { 0 } }
    }

    /// How much time has passed at the moment `now`, which is none if `now` lies before `self`.
    pub fn elapsed(self, now: Instant) -> (duration: Duration)
        ensures
            duration == self.elapsed_spec(now),
    {
        if now.nanos >= self.nanos {
            Duration { nanos: now.nanos - self.nanos }
        } else {
            Duration { nanos: 0 }
        }
    }
}

/// The time that has passed is what lies between the two moments, down to the nanosecond, and there
/// is none before the first one.
pub proof fn law_elapsed(since: Instant, now: Instant)
    ensures
        since.nanos <= now.nanos ==> since.nanos + since.elapsed_spec(now).nanos == now.nanos,
        since.nanos > now.nanos ==> since.elapsed_spec(now).nanos == 0,
{
}

} // verus!
