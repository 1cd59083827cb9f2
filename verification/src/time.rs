//! Time, as the stack counts it: whole microseconds since an arbitrary point.

use vstd::prelude::*;

verus! {

/// A point in time.
#[derive(Debug, Clone, Copy, PartialEq, Eq, Structural, PartialOrd, Ord, Hash)]
pub struct Instant {
    pub micros: i64,
}

/// A span of time.
#[derive(Debug, Clone, Copy, PartialEq, Eq, Structural, PartialOrd, Ord, Hash)]
pub struct Duration {
    pub micros: u64,
}

impl Instant {
    /// The start of time.
    pub fn zero() -> (r: Instant)
        ensures
            r.micros == 0,
    {
        Instant { micros: 0 }
    }

    /// A point later than any timer, standing for "never".
    pub fn max() -> (r: Instant)
        ensures
            r.micros == i64::MAX,
    {
        Instant { micros: i64::MAX }
    }

    /// The point `millis` milliseconds after the start of time.
    pub fn from_millis(millis: i64) -> (r: Instant)
        requires
            i64::MIN <= millis * 1000 <= i64::MAX,
        ensures
            r.micros == millis * 1000,
    {
        Instant { micros: millis * 1000 }
    }

    /// The point `secs` seconds after the start of time.
    pub fn from_secs(secs: i64) -> (r: Instant)
        requires
            i64::MIN <= secs * 1_000_000 <= i64::MAX,
        ensures
            r.micros == secs * 1_000_000,
    {
        Instant { micros: secs * 1_000_000 }
    }

    /// Whether `d` can be added to this point.
    pub open spec fn can_add(self, d: Duration) -> bool {
        d.micros <= i64::MAX && self.micros + d.micros <= i64::MAX
    }

    /// The point `d` after this one.
    pub open spec fn plus(self, d: Duration) -> Instant {
        Instant { micros: (self.micros + d.micros) as i64 }
    }

    /// The point `d` after this one.
    pub fn after(self, d: Duration) -> (r: Instant)
        requires
            self.can_add(d),
        ensures
            r == self.plus(d),
    {
        Instant { micros: self.micros + d.micros as i64 }
    }

    /// The earlier of two points.
    pub open spec fn earlier(self, other: Instant) -> Instant {
        if self.micros <= other.micros {
            self
        } else {
            other
        }
    }

    /// The earlier of two points.
    pub fn earliest(self, other: Instant) -> (r: Instant)
        ensures
            r == self.earlier(other),
    {
        if self.micros <= other.micros {
            self
        } else {
            other
        }
    }
}

impl Duration {
    /// A span of `millis` milliseconds.
    pub fn from_millis(millis: u64) -> (r: Duration)
        requires
            millis * 1000 <= u64::MAX,
        ensures
            r.micros == millis * 1000,
    {
        Duration { micros: millis * 1000 }
    }

    /// This span, `n` times over.
    pub fn times(self, n: u32) -> (r: Duration)
        requires
            self.micros * n <= u64::MAX,
        ensures
            r.micros == self.micros * n,
    {
        Duration { micros: self.micros * n as u64 }
    }
}

} // verus!
