//! Spreading packets over time.
use vstd::prelude::*;

use crate::time::Duration;
use crate::time::Instant;
use crate::time::MAX_INSTANT_NANOS;

verus! {

/// The longest pause: what the largest burst takes at one byte per second.
pub const MAX_PAUSE_NANOS: u128 = 0x4000_0000_0000_0000_0000_0000;

/// A bucket of bytes that are sent as one burst, and the time at which the
/// next burst may leave.
#[derive(Clone, Copy, Debug, PartialEq, Eq, Structural)]
pub struct Pacer {
    pub enabled: bool,
    /// Size of a burst in bytes, a multiple of the datagram size.
    pub capacity: usize,
    /// Bytes of the current burst that have been sent.
    pub used: usize,
    /// Bytes per second. Nothing is paced while it is zero.
    pub rate: u64,
    pub last_update: Instant,
    pub next_time: Instant,
    pub max_datagram_size: usize,
    pub last_packet_size: Option<usize>,
    /// Pause before the next burst.
    pub iv: Duration,
    pub max_pacing_rate: Option<u64>,
}

/// The time that `bytes` take at `rate` bytes per second, to the nearest
/// nanosecond.
pub open spec fn time_at_rate(bytes: int, rate: int) -> int {
    (2 * bytes * 1_000_000_000 + rate) / (2 * rate)
}

/// `rate`, limited to the maximum if there is one.
pub open spec fn limited(rate: u64, max_pacing_rate: Option<u64>) -> u64 {
    match max_pacing_rate {
        Some(max) => if max <= rate {
            max
        } else {
            rate
        },
        None => rate,
    }
}

/// `size` rounded down to whole datagrams.
pub open spec fn whole_datagrams(size: usize, max_datagram_size: usize) -> usize {
    if max_datagram_size == 0 {
        0
    } else {
        (size / max_datagram_size * max_datagram_size) as usize
    }
}

/// `t + d`, but not beyond the last instant that a clock can read.
pub open spec fn no_later_than_clock(n: int) -> Instant {
    if n > MAX_INSTANT_NANOS {
        Instant { nanos: MAX_INSTANT_NANOS }
    } else {
        Instant::at(n)
    }
}

fn bytes_time(bytes: usize, rate: u64) -> (d: Duration)
    requires
        rate > 0,
    ensures
        d.nanos == time_at_rate(bytes as int, rate as int),
        d.nanos <= MAX_PAUSE_NANOS,
{
    let twice = 2 * (bytes as u128) * 1_000_000_000;
    proof {
        let num = twice + rate;
        let den = 2 * rate as int;
        assert(num / den <= MAX_PAUSE_NANOS) by (nonlinear_arith)
            requires
                den >= 2,
                0 <= num <= 2 * 0xffff_ffff_ffff_ffff * 1_000_000_000 + den,
                MAX_PAUSE_NANOS == 0x4000_0000_0000_0000_0000_0000,
        ;
    }
    Duration { nanos: (twice + rate as u128) / (2 * rate as u128) }
}

fn round_to_datagrams(size: usize, max_datagram_size: usize) -> (r: usize)
    ensures
        r == whole_datagrams(size, max_datagram_size),
{
    if max_datagram_size == 0 {
        return 0;
    }
    proof {
        assert(0 <= size / max_datagram_size * max_datagram_size <= size) by (nonlinear_arith)
            requires
                max_datagram_size > 0,
        ;
    }
    size / max_datagram_size * max_datagram_size
}

impl Pacer {
    pub open spec fn wf(self) -> bool {
        &&& self.last_update.in_range()
        &&& self.next_time.in_range()
        &&& self.iv.nanos <= MAX_PAUSE_NANOS
    }

    /// A pacer that has sent nothing.
    pub open spec fn fresh(
        enabled: bool,
        capacity: usize,
        rate: u64,
        max_datagram_size: usize,
        max_pacing_rate: Option<u64>,
        now: Instant,
    ) -> Pacer {
        Pacer {
            enabled,
            capacity: whole_datagrams(capacity, max_datagram_size),
            used: 0,
            rate: limited(rate, max_pacing_rate),
            last_update: now,
            next_time: now,
            max_datagram_size,
            last_packet_size: None,
            iv: Duration { nanos: 0 },
            max_pacing_rate,
        }
    }

    /// A new burst may start at once.
    pub open spec fn restarted(self, now: Instant) -> Pacer {
        Pacer {
            used: 0,
            last_update: now,
            next_time: self.next_time.spec_max(now),
            last_packet_size: None,
            iv: Duration { nanos: 0 },
            ..self
        }
    }

    /// The burst size and the rate are set anew; a new burst size starts a
    /// new burst.
    pub open spec fn with_rate(self, capacity: usize, rate: u64, now: Instant) -> Pacer {
        let capacity = whole_datagrams(capacity, self.max_datagram_size);
        let p = if self.capacity != capacity {
            self.restarted(now)
        } else {
            self
        };
        Pacer { capacity, rate: limited(rate, self.max_pacing_rate), ..p }
    }

    /// The pause that the last burst earned has been added to the send time.
    pub open spec fn paused(self, now: Instant) -> Pacer {
        if self.iv.nanos > 0 {
            Pacer {
                next_time: no_later_than_clock(
                    self.next_time.spec_max(now).nanos + self.iv.nanos,
                ),
                iv: Duration { nanos: 0 },
                ..self
            }
        } else {
            self
        }
    }

    /// A burst that took longer than its rate allows is given up.
    pub open spec fn refreshed(self, now: Instant) -> Pacer {
        if now.since(self.last_update).nanos > time_at_rate(
            self.capacity as int,
            self.rate as int,
        ) {
            self.restarted(now)
        } else {
            self
        }
    }

    /// The packet is part of the burst. The burst ends when it is full or when
    /// the packet differs in size from the one before it.
    pub open spec fn filled(self, packet_size: usize, now: Instant) -> Pacer {
        let used = if self.used + packet_size > usize::MAX {
            usize::MAX
        } else {
            (self.used + packet_size) as usize
        };
        let same_size = self.last_packet_size is None || self.last_packet_size == Some(
            packet_size,
        );
        let p = Pacer { used, last_packet_size: Some(packet_size), ..self };
        if used >= self.capacity || !same_size {
            Pacer {
                iv: Duration::of(time_at_rate(used as int, self.rate as int)),
                used: 0,
                last_update: now,
                ..p
            }
        } else {
            p
        }
    }

    /// The state once a packet has been sent.
    pub open spec fn after_sent(self, packet_size: usize, now: Instant) -> Pacer {
        if self.rate == 0 {
            self.restarted(now)
        } else {
            self.paused(now).refreshed(now).filled(packet_size, now)
        }
    }

    pub fn new(
        enabled: bool,
        capacity: usize,
        rate: u64,
        max_datagram_size: usize,
        max_pacing_rate: Option<u64>,
        now: Instant,
    ) -> (p: Pacer)
        requires
            now.in_range(),
        ensures
            p == Self::fresh(enabled, capacity, rate, max_datagram_size, max_pacing_rate, now),
            p.wf(),
    {
        let capacity = round_to_datagrams(capacity, max_datagram_size);
        let rate = match max_pacing_rate {
            Some(max) => if max <= rate {
                max
            } else {
                rate
            },
            None => rate,
        };
        Pacer {
            enabled,
            capacity,
            used: 0,
            rate,
            last_update: now,
            next_time: now,
            max_datagram_size,
            last_packet_size: None,
            iv: Duration { nanos: 0 },
            max_pacing_rate,
        }
    }

    pub fn enabled(&self) -> (r: bool)
        ensures
            r == self.enabled,
    {
        self.enabled
    }

    pub fn rate(&self) -> (r: u64)
        ensures
            r == self.rate,
    {
        self.rate
    }

    pub fn max_pacing_rate(&self) -> (r: Option<u64>)
        ensures
            r == self.max_pacing_rate,
    {
        self.max_pacing_rate
    }

    /// When the next packet may leave.
    pub fn next_time(&self) -> (t: Instant)
        ensures
            t == self.next_time,
    {
        self.next_time
    }

    pub fn reset(&mut self, now: Instant)
        requires
            old(self).wf(),
            now.in_range(),
        ensures
            *final(self) == old(self).restarted(now),
            final(self).wf(),
    {
        self.used = 0;
        self.last_update = now;
        self.next_time = self.next_time.max(now);
        self.last_packet_size = None;
        self.iv = Duration { nanos: 0 };
    }

    pub fn update(&mut self, capacity: usize, rate: u64, now: Instant)
        requires
            old(self).wf(),
            now.in_range(),
        ensures
            *final(self) == old(self).with_rate(capacity, rate, now),
            final(self).wf(),
    {
        let capacity = round_to_datagrams(capacity, self.max_datagram_size);
        if self.capacity != capacity {
            self.reset(now);
        }
        self.capacity = capacity;
        self.rate = match self.max_pacing_rate {
            Some(max) => if max <= rate {
                max
            } else {
                rate
            },
            None => rate,
        };
    }

    pub fn send(&mut self, packet_size: usize, now: Instant)
        requires
            old(self).wf(),
            now.in_range(),
        ensures
            *final(self) == old(self).after_sent(packet_size, now),
            final(self).wf(),
    {
        if self.rate == 0 {
            self.reset(now);
            return;
        }
        if self.iv.nanos > 0 {
            let t = self.next_time.max(now).plus(self.iv);
            self.next_time = if t.nanos > MAX_INSTANT_NANOS {
                Instant { nanos: MAX_INSTANT_NANOS }
            } else {
                t
            };
            self.iv = Duration { nanos: 0 };
        }
        let interval = bytes_time(self.capacity, self.rate);
        let elapsed = now.saturating_duration_since(self.last_update);
        if elapsed.nanos > interval.nanos {
            self.reset(now);
        }
        self.used = self.used.saturating_add(packet_size);
        let same_size = match self.last_packet_size {
            Some(size) => size == packet_size,
            None => true,
        };
        self.last_packet_size = Some(packet_size);
        if self.used >= self.capacity || !same_size {
            self.iv = bytes_time(self.used, self.rate);
            self.used = 0;
            self.last_update = now;
        }
    }
}

/// The send time never moves back, and it never lies before the current time
/// once a packet has been sent without pacing.
pub proof fn lemma_send_time_advances(p: Pacer, packet_size: usize, now: Instant)
    requires
        p.wf(),
        now.in_range(),
    ensures
        p.after_sent(packet_size, now).next_time.nanos >= p.next_time.nanos,
        p.rate == 0 ==> p.after_sent(packet_size, now).next_time.nanos >= now.nanos,
{
}

} // verus!
