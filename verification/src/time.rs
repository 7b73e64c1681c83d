//! Points in time and lengths of time, counted in whole nanoseconds.
use vstd::prelude::*;

verus! {

/// The longest distance between two clock readings.
pub const MAX_DURATION_NANOS: u128 = 0x200_0000_0000_0000_0000_0000;

/// The longest distance between a clock reading and the clock's origin: some
/// ten billion years.
pub const MAX_INSTANT_NANOS: i128 = 0x100_0000_0000_0000_0000_0000;

/// A length of time.
#[derive(Clone, Copy, Debug, PartialEq, Eq, Structural)]
pub struct Duration {
    pub nanos: u128,
}

/// A reading of a monotonic clock, as the signed distance to its origin.
#[derive(Clone, Copy, Debug, PartialEq, Eq, Structural)]
pub struct Instant {
    pub nanos: i128,
}

/// `k` eighths of `n`, rounded to the nearest integer, halves upwards.
pub open spec fn eighths_of(n: int, k: int) -> int {
    (n * k + 4) / 8
}

impl Duration {
    /// The duration of `n` nanoseconds.
    pub open spec fn of(n: int) -> Duration {
        Duration { nanos: n as u128 }
    }

    /// The duration is one that a clock can measure.
    pub open spec fn in_range(self) -> bool {
        self.nanos <= MAX_DURATION_NANOS
    }

    pub open spec fn spec_max(self, other: Duration) -> Duration {
        if self.nanos >= other.nanos {
            self
        } else {
            other
        }
    }

    pub open spec fn spec_min(self, other: Duration) -> Duration {
        if self.nanos <= other.nanos {
            self
        } else {
            other
        }
    }

    pub fn zero() -> (d: Duration)
        ensures
            d == (Duration { nanos: 0 }),
    {
        Duration { nanos: 0 }
    }

    pub fn from_nanos(n: u64) -> (d: Duration)
        ensures
            d.nanos == n,
            d.in_range(),
    {
        Duration { nanos: n as u128 }
    }

    pub fn from_micros(n: u64) -> (d: Duration)
        ensures
            d.nanos == n * 1_000,
            d.in_range(),
    {
        Duration { nanos: n as u128 * 1_000 }
    }

    pub fn from_millis(n: u64) -> (d: Duration)
        ensures
            d.nanos == n * 1_000_000,
            d.in_range(),
    {
        Duration { nanos: n as u128 * 1_000_000 }
    }

    pub fn is_zero(self) -> (r: bool)
        ensures
            r == (self.nanos == 0),
    {
        self.nanos == 0
    }

    /// The longer of the two.
    pub fn max(self, other: Duration) -> (d: Duration)
        ensures
            d == self.spec_max(other),
    {
        if self.nanos >= other.nanos {
            self
        } else {
            other
        }
    }

    /// The shorter of the two.
    pub fn min(self, other: Duration) -> (d: Duration)
        ensures
            d == self.spec_min(other),
    {
        if self.nanos <= other.nanos {
            self
        } else {
            other
        }
    }

    pub fn plus(self, other: Duration) -> (d: Duration)
        requires
            self.nanos + other.nanos <= u128::MAX,
        ensures
            d.nanos == self.nanos + other.nanos,
    {
        Duration { nanos: self.nanos + other.nanos }
    }

    /// `k` eighths of the duration, to the nearest nanosecond.
    pub fn eighths(self, k: u32) -> (d: Duration)
        requires
            self.in_range(),
            k <= 16,
        ensures
            d.nanos == eighths_of(self.nanos as int, k as int),
            k <= 8 ==> d.nanos <= self.nanos,
            d.nanos <= 2 * self.nanos,
    {
        let n = self.nanos;
        proof {
            assert(0 <= n * k <= n * 16) by (nonlinear_arith)
                requires
                    n >= 0,
                    0 <= k <= 16,
            ;
            if k <= 8 {
                assert(n * k <= n * 8) by (nonlinear_arith)
                    requires
                        n >= 0,
                        k <= 8,
                ;
            }
        }
        Duration { nanos: (n * k as u128 + 4) / 8 }
    }
}

/// How far apart two durations are.
pub fn sub_abs(lhs: Duration, rhs: Duration) -> (d: Duration)
    ensures
        d.nanos == if lhs.nanos >= rhs.nanos {
            lhs.nanos - rhs.nanos
        } else {
            rhs.nanos - lhs.nanos
        },
{
    if lhs.nanos > rhs.nanos {
        Duration { nanos: lhs.nanos - rhs.nanos }
    } else {
        Duration { nanos: rhs.nanos - lhs.nanos }
    }
}

impl Instant {
    /// The instant `n` nanoseconds after the origin.
    pub open spec fn at(n: int) -> Instant {
        Instant { nanos: n as i128 }
    }

    /// The instant is one that a clock can read.
    pub open spec fn in_range(self) -> bool {
        -MAX_INSTANT_NANOS <= self.nanos <= MAX_INSTANT_NANOS
    }

    pub open spec fn spec_max(self, other: Instant) -> Instant {
        if self.nanos >= other.nanos {
            self
        } else {
            other
        }
    }

    /// The time from `earlier` to `self`, or nothing when `earlier` is later.
    pub open spec fn since(self, earlier: Instant) -> Duration {
        if self.nanos >= earlier.nanos {
            Duration::of(self.nanos - earlier.nanos)
        } else {
            Duration::of(0)
        }
    }

    pub fn from_nanos(n: i64) -> (t: Instant)
        ensures
            t.nanos == n,
            t.in_range(),
    {
        Instant { nanos: n as i128 }
    }

    /// The later of the two.
    pub fn max(self, other: Instant) -> (t: Instant)
        ensures
            t == self.spec_max(other),
    {
        if self.nanos >= other.nanos {
            self
        } else {
            other
        }
    }

    pub fn plus(self, d: Duration) -> (t: Instant)
        requires
            d.nanos <= 0x4000_0000_0000_0000_0000_0000_0000_0000,
            self.nanos <= 0x1000_0000_0000_0000_0000_0000_0000_0000,
        ensures
            t.nanos == self.nanos + d.nanos,
    {
        Instant { nanos: self.nanos + d.nanos as i128 }
    }

    pub fn saturating_duration_since(self, earlier: Instant) -> (d: Duration)
        requires
            self.in_range(),
            earlier.in_range(),
        ensures
            d == self.since(earlier),
            d.in_range(),
            self.nanos >= earlier.nanos ==> d.nanos == self.nanos - earlier.nanos,
    {
        if self.nanos >= earlier.nanos {
            Duration { nanos: (self.nanos - earlier.nanos) as u128 }
        } else {
            Duration { nanos: 0 }
        }
    }
}

/// The order in which optional deadlines are compared: no deadline sorts
/// before every deadline.
pub open spec fn deadline_lt(a: Option<Instant>, b: Option<Instant>) -> bool {
    match (a, b) {
        (None, Some(_)) => true,
        (Some(x), Some(y)) => x.nanos < y.nanos,
        _ => false,
    }
}

pub fn deadline_before(a: Option<Instant>, b: Option<Instant>) -> (r: bool)
    ensures
        r == deadline_lt(a, b),
{
    match (a, b) {
        (None, Some(_)) => true,
        (Some(x), Some(y)) => x.nanos < y.nanos,
        _ => false,
    }
}

} // verus!
