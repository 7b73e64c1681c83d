//! The smallest of the measurements taken during a sliding window of time.
use vstd::prelude::*;

use crate::time::Duration;
use crate::time::Instant;

verus! {

/// A measurement and when it was taken.
#[derive(Clone, Copy, Debug, PartialEq, Eq, Structural)]
pub struct Sample {
    pub time: Instant,
    pub value: Duration,
}

/// The best, the second best and the third best measurement of the window.
/// Each was taken no earlier than the one before it.
#[derive(Clone, Copy, Debug, PartialEq, Eq, Structural)]
pub struct Minmax {
    pub best: Sample,
    pub second: Sample,
    pub third: Sample,
}

impl Sample {
    pub open spec fn wf(self) -> bool {
        self.time.in_range() && self.value.in_range()
    }
}

impl Minmax {
    /// The three choices are in order.
    pub open spec fn wf(self) -> bool {
        &&& self.best.wf()
        &&& self.second.wf()
        &&& self.third.wf()
        &&& self.best.value.nanos <= self.second.value.nanos
        &&& self.second.value.nanos <= self.third.value.nanos
    }

    /// All three choices are the one sample.
    pub open spec fn only(s: Sample) -> Minmax {
        Minmax { best: s, second: s, third: s }
    }

    /// The sample takes the place of the later choices that it undercuts.
    pub open spec fn undercut(self, s: Sample) -> Minmax {
        if s.value.nanos <= self.second.value.nanos {
            Minmax { second: s, third: s, ..self }
        } else if s.value.nanos <= self.third.value.nanos {
            Minmax { third: s, ..self }
        } else {
            self
        }
    }

    /// The best choice leaves and the sample becomes the third.
    pub open spec fn shifted(self, s: Sample) -> Minmax {
        Minmax { best: self.second, second: self.third, third: s }
    }

    /// Choices that have left the window, or that are as old as the choice
    /// before them for a quarter or a half of it, are replaced.
    pub open spec fn aged(self, win: Duration, s: Sample) -> Minmax {
        let age = s.time.since(self.best.time).nanos;
        if age > win.nanos {
            let one = self.shifted(s);
            if s.time.since(one.best.time).nanos > win.nanos {
                one.shifted(s)
            } else {
                one
            }
        } else if self.second.time == self.best.time && age > win.nanos / 4 {
            Minmax { second: s, third: s, ..self }
        } else if self.third.time == self.second.time && age > win.nanos / 2 {
            Minmax { third: s, ..self }
        } else {
            self
        }
    }

    /// The choices once the sample is taken into account.
    pub open spec fn with_min(self, win: Duration, s: Sample) -> Minmax {
        if s.value.nanos <= self.best.value.nanos || s.time.since(self.third.time).nanos
            > win.nanos {
            Self::only(s)
        } else {
            self.undercut(s).aged(win, s)
        }
    }

    pub fn new(value: Duration, now: Instant) -> (m: Minmax)
        ensures
            m == Self::only((Sample { time: now, value })),
    {
        let s = Sample { time: now, value };
        Minmax { best: s, second: s, third: s }
    }

    /// Forgets the earlier measurements.
    pub fn reset(&mut self, now: Instant, value: Duration) -> (r: Duration)
        requires
            now.in_range(),
            value.in_range(),
        ensures
            *final(self) == Self::only((Sample { time: now, value })),
            final(self).wf(),
            r == value,
    {
        *self = Minmax::new(value, now);
        value
    }

    /// Takes a measurement and returns the smallest of the window.
    pub fn running_min(&mut self, win: Duration, now: Instant, value: Duration) -> (r: Duration)
        requires
            old(self).wf(),
            now.in_range(),
            value.in_range(),
        ensures
            *final(self) == old(self).with_min(win, (Sample { time: now, value })),
            final(self).wf(),
            r == final(self).best.value,
            r.nanos <= value.nanos,
    {
        let s = Sample { time: now, value };
        let quiet = now.saturating_duration_since(self.third.time);
        if value.nanos <= self.best.value.nanos || quiet.nanos > win.nanos {
            return self.reset(now, value);
        }
        if value.nanos <= self.second.value.nanos {
            self.second = s;
            self.third = s;
        } else if value.nanos <= self.third.value.nanos {
            self.third = s;
        }
        let age = now.saturating_duration_since(self.best.time);
        if age.nanos > win.nanos {
            self.best = self.second;
            self.second = self.third;
            self.third = s;
            let age = now.saturating_duration_since(self.best.time);
            if age.nanos > win.nanos {
                self.best = self.second;
                self.second = self.third;
                self.third = s;
            }
        } else if self.second.time == self.best.time && age.nanos > win.nanos / 4 {
            self.second = s;
            self.third = s;
        } else if self.third.time == self.second.time && age.nanos > win.nanos / 2 {
            self.third = s;
        }
        self.best.value
    }
}

} // verus!
