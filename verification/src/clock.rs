//! Points in time and spans of time, counted in nanoseconds.
//!
//! The library never reads a clock: every function whose outcome depends on
//! the time takes the current [`Instant`] as an argument.
use vstd::prelude::*;

verus! {

/// Nanoseconds in one second.
pub const NANOS_PER_SEC: u128 = 1_000_000_000;

/// Nanoseconds in one millisecond.
pub const NANOS_PER_MILLI: u128 = 1_000_000;

/// A span of time.
#[derive(Clone, Copy, Debug, PartialEq, Eq, Structural)]
pub struct Duration {
    pub nanos: u128,
}

/// A point on a monotonic clock.
#[derive(Clone, Copy, Debug, PartialEq, Eq, Structural)]
pub struct Instant {
    pub nanos: u128,
}

impl Duration {
    /// The empty span.
    pub fn zero() -> (d: Self)
        ensures
            d.nanos == 0,
    {
        Duration { nanos: 0 }
    }

    /// A span of `secs` whole seconds.
    pub fn from_secs(secs: u64) -> (d: Self)
        ensures
            d.nanos == secs * NANOS_PER_SEC,
    {
        assert(secs * NANOS_PER_SEC <= u64::MAX * NANOS_PER_SEC) by (nonlinear_arith)
            requires
                secs <= u64::MAX,
                NANOS_PER_SEC == 1_000_000_000,
        ;
        Duration { nanos: secs as u128 * NANOS_PER_SEC }
    }

    /// A span of `millis` whole milliseconds.
    pub fn from_millis(millis: u64) -> (d: Self)
        ensures
            d.nanos == millis * NANOS_PER_MILLI,
    {
        assert(millis * NANOS_PER_MILLI <= u64::MAX * NANOS_PER_MILLI) by (nonlinear_arith)
            requires
                millis <= u64::MAX,
                NANOS_PER_MILLI == 1_000_000,
        ;
        Duration { nanos: millis as u128 * NANOS_PER_MILLI }
    }

    /// The longer of the two spans.
    pub fn max(self, other: Self) -> (d: Self)
        ensures
            d.nanos == if self.nanos >= other.nanos { self.nanos } else { other.nanos },
    {
        if self.nanos >= other.nanos {
            self
        } else {
            other
        }
    }

    /// The shorter of the two spans.
    pub fn min(self, other: Self) -> (d: Self)
        ensures
            d.nanos == if self.nanos <= other.nanos { self.nanos } else { other.nanos },
    {
        if self.nanos <= other.nanos {
            self
        } else {
            other
        }
    }
}

/// Time left from `now` until `at`; nothing once `at` has passed.
pub open spec fn time_left(at: Instant, now: Instant) -> nat {
    if at.nanos > now.nanos {
        (at.nanos - now.nanos) as nat
    } else {
        0
    }
}

impl Instant {
    /// The instant `d` after this one.
    pub fn plus(self, d: Duration) -> (at: Self)
        requires
            self.nanos + d.nanos <= u128::MAX,
        ensures
            at.nanos == self.nanos + d.nanos,
    {
        Instant { nanos: self.nanos + d.nanos }
    }

    /// Time elapsed since `earlier`, or nothing when `earlier` lies ahead.
    pub fn saturating_duration_since(self, earlier: Self) -> (d: Duration)
        ensures
            d.nanos == time_left(self, earlier),
    {
        if self.nanos > earlier.nanos {
            Duration { nanos: self.nanos - earlier.nanos }
        } else {
            Duration { nanos: 0 }
        }
    }
}

} // verus!
