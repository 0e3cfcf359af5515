//! Points in time.

use vstd::prelude::*;

verus! {

/// Nanoseconds in one second.
pub const NANOS_PER_SECOND: u128 = 1_000_000_000;

/// A point on the server's monotonic clock, in nanoseconds since the clock's
/// origin. The caller reads the clock; the protocol only compares and adds.
#[derive(Clone, Copy, PartialEq, Eq, Structural, Debug)]
pub struct Moment {
    pub nanos: u128,
}

impl Moment {
    /// The moment `seconds` after this one, or the last representable moment
    /// where that would lie beyond it.
    pub open spec fn plus_seconds(self, seconds: u64) -> Moment {
        let sum = self.nanos + seconds * NANOS_PER_SECOND;
        Moment {
            nanos: if sum <= u128::MAX {
                sum as u128
            } else {
                u128::MAX
            },
        }
    }

    /// Whether this moment lies more than `seconds` before `now`.
    pub open spec fn older_than(self, now: Moment, seconds: u64) -> bool {
        now.nanos - self.nanos > seconds * NANOS_PER_SECOND
    }

    /// The moment that lies `nanos` nanoseconds after the clock's origin.
    pub fn from_nanos(nanos: u128) -> (moment: Moment)
        ensures
            moment.nanos == nanos,
    {
        Moment { nanos }
    }

    /// The moment `seconds` later, saturating at the end of the clock.
    pub fn after_seconds(self, seconds: u64) -> (later: Moment)
        ensures
            later == self.plus_seconds(seconds),
    {
        let span: u128 = (seconds as u128) * NANOS_PER_SECOND;
        if span > u128::MAX - self.nanos {
            Moment { nanos: u128::MAX }
        } else {
            Moment { nanos: self.nanos + span }
        }
    }

    /// Whether `now` lies more than `seconds` after this moment. A moment that is
    /// not in the past of `now` is never old.
    pub fn is_older_than(self, now: Moment, seconds: u64) -> (old_enough: bool)
        ensures
            old_enough == self.older_than(now, seconds),
    {
        let span: u128 = (seconds as u128) * NANOS_PER_SECOND;
        now.nanos >= self.nanos && now.nanos - self.nanos > span
    }
}

} // verus!
