//! The rate at which packets reach the peer, estimated from their
//! acknowledgements.
use vstd::prelude::*;

use crate::sent::Acked;
use crate::sent::Sent;
use crate::sent::SentView;
use crate::time::Duration;
use crate::time::Instant;

verus! {

/// The figures of the newest acknowledged packet.
#[derive(Clone, Copy, Debug, PartialEq, Eq, Structural)]
pub struct RateSample {
    /// Bytes per second.
    pub delivery_rate: u64,
    pub is_app_limited: bool,
    pub interval: Duration,
    pub delivered: usize,
    pub prior_delivered: usize,
    pub prior_time: Option<Instant>,
    pub send_elapsed: Duration,
    pub ack_elapsed: Duration,
    pub rtt: Duration,
}

#[derive(Clone, Copy, Debug, PartialEq, Eq, Structural)]
pub struct Rate {
    /// Bytes delivered so far.
    pub delivered: usize,
    pub delivered_time: Instant,
    pub first_sent_time: Instant,
    /// The last packet of the application-limited phase, or zero.
    pub end_of_app_limited: u64,
    pub last_sent_packet: u64,
    pub largest_acked: u64,
    pub rate_sample: RateSample,
}

/// `bytes` in `nanos` nanoseconds, as bytes per second.
pub open spec fn bytes_per_second(bytes: int, nanos: int) -> u64 {
    if bytes * 1_000_000_000 / nanos > u64::MAX {
        u64::MAX
    } else {
        (bytes * 1_000_000_000 / nanos) as u64
    }
}

impl Rate {
    pub open spec fn wf(self) -> bool {
        &&& self.delivered_time.in_range()
        &&& self.first_sent_time.in_range()
    }

    pub open spec fn spec_app_limited(self) -> bool {
        self.end_of_app_limited != 0
    }

    /// Nothing has been sent or delivered.
    pub open spec fn fresh(now: Instant) -> Rate {
        Rate {
            delivered: 0,
            delivered_time: now,
            first_sent_time: now,
            end_of_app_limited: 0,
            last_sent_packet: 0,
            largest_acked: 0,
            rate_sample: RateSample {
                delivery_rate: 0,
                is_app_limited: false,
                interval: Duration { nanos: 0 },
                delivered: 0,
                prior_delivered: 0,
                prior_time: None,
                send_elapsed: Duration { nanos: 0 },
                ack_elapsed: Duration { nanos: 0 },
                rtt: Duration { nanos: 0 },
            },
        }
    }

    /// The state once a packet has been sent while `bytes_in_flight` were on
    /// their way. The clock of the estimate starts anew when there were none.
    pub open spec fn after_sent(self, pkt: SentView, bytes_in_flight: usize) -> Rate {
        if bytes_in_flight == 0 {
            Rate {
                first_sent_time: pkt.time_sent,
                delivered_time: pkt.time_sent,
                last_sent_packet: pkt.pkt_num,
                ..self
            }
        } else {
            Rate { last_sent_packet: pkt.pkt_num, ..self }
        }
    }

    /// The packet with the state of the estimate noted in it.
    pub open spec fn stamped(self, pkt: SentView) -> SentView {
        SentView {
            first_sent_time: self.first_sent_time,
            delivered_time: self.delivered_time,
            delivered: self.delivered,
            is_app_limited: self.spec_app_limited(),
            ..pkt
        }
    }

    /// The state once one more packet has been acknowledged.
    pub open spec fn after_acked(self, pkt: Acked, now: Instant) -> Rate {
        let r = Rate {
            delivered: if self.delivered + pkt.size > usize::MAX {
                usize::MAX
            } else {
                (self.delivered + pkt.size) as usize
            },
            delivered_time: now,
            largest_acked: if self.largest_acked >= pkt.pkt_num {
                self.largest_acked
            } else {
                pkt.pkt_num
            },
            ..self
        };
        if self.rate_sample.prior_time is None || pkt.delivered
            > self.rate_sample.prior_delivered {
            Rate {
                first_sent_time: pkt.time_sent,
                rate_sample: RateSample {
                    prior_delivered: pkt.delivered,
                    prior_time: Some(pkt.delivered_time),
                    is_app_limited: pkt.is_app_limited,
                    send_elapsed: pkt.time_sent.since(pkt.first_sent_time),
                    rtt: pkt.rtt,
                    ack_elapsed: now.since(pkt.delivered_time),
                    ..self.rate_sample
                },
                ..r
            }
        } else {
            r
        }
    }

    /// The state once all of `pkts` have been acknowledged, in order.
    pub open spec fn after_all_acked(self, pkts: Seq<Acked>, now: Instant) -> Rate
        decreases pkts.len(),
    {
        if pkts.len() == 0 {
            self
        } else {
            self.after_all_acked(pkts.drop_last(), now).after_acked(pkts.last(), now)
        }
    }

    pub open spec fn with_app_limited(self, v: bool) -> Rate {
        Rate {
            end_of_app_limited: if v {
                if self.last_sent_packet >= 1 {
                    self.last_sent_packet
                } else {
                    1
                }
            } else {
                0
            },
            ..self
        }
    }

    /// The state with its sample filled in. Samples over an interval shorter
    /// than the smallest RTT are not reliable.
    pub open spec fn sampled(self, min_rtt: Duration) -> Rate {
        let r = if self.spec_app_limited() && self.largest_acked > self.end_of_app_limited {
            self.with_app_limited(false)
        } else {
            self
        };
        let s = r.rate_sample;
        if s.prior_time is None {
            r
        } else {
            let interval = s.send_elapsed.spec_max(s.ack_elapsed);
            let delivered = if r.delivered >= s.prior_delivered {
                (r.delivered - s.prior_delivered) as usize
            } else {
                0usize
            };
            if interval.nanos < min_rtt.nanos {
                Rate {
                    rate_sample: RateSample { delivered, interval: Duration { nanos: 0 }, ..s },
                    ..r
                }
            } else if interval.nanos == 0 {
                Rate { rate_sample: RateSample { delivered, interval, ..s }, ..r }
            } else {
                Rate {
                    rate_sample: RateSample {
                        delivered,
                        interval,
                        delivery_rate: bytes_per_second(
                            delivered as int,
                            interval.nanos as int,
                        ),
                        ..s
                    },
                    ..r
                }
            }
        }
    }

    pub fn new(now: Instant) -> (r: Rate)
        ensures
            r == Self::fresh(now),
    {
        let none = Duration { nanos: 0 };
        Rate {
            delivered: 0,
            delivered_time: now,
            first_sent_time: now,
            end_of_app_limited: 0,
            last_sent_packet: 0,
            largest_acked: 0,
            rate_sample: RateSample {
                delivery_rate: 0,
                is_app_limited: false,
                interval: none,
                delivered: 0,
                prior_delivered: 0,
                prior_time: None,
                send_elapsed: none,
                ack_elapsed: none,
                rtt: none,
            },
        }
    }

    pub fn app_limited(&self) -> (r: bool)
        ensures
            r == self.spec_app_limited(),
    {
        self.end_of_app_limited != 0
    }

    pub fn on_packet_sent(&mut self, pkt: &mut Sent, bytes_in_flight: usize)
        requires
            old(self).wf(),
            old(pkt).time_sent.in_range(),
        ensures
            *final(self) == old(self).after_sent(old(pkt)@, bytes_in_flight),
            final(pkt)@ == final(self).stamped(old(pkt)@),
            final(self).wf(),
    {
        if bytes_in_flight == 0 {
            self.first_sent_time = pkt.time_sent;
            self.delivered_time = pkt.time_sent;
        }
        pkt.first_sent_time = self.first_sent_time;
        pkt.delivered_time = self.delivered_time;
        pkt.delivered = self.delivered;
        pkt.is_app_limited = self.app_limited();
        self.last_sent_packet = pkt.pkt_num;
    }

    /// Updates the sample with an acknowledged packet.
    pub fn update_rate_sample(&mut self, pkt: &Acked, now: Instant)
        requires
            old(self).wf(),
            pkt.wf(),
            now.in_range(),
        ensures
            *final(self) == old(self).after_acked(*pkt, now),
            final(self).wf(),
    {
        self.delivered = self.delivered.saturating_add(pkt.size);
        self.delivered_time = now;
        if self.rate_sample.prior_time.is_none() || pkt.delivered
            > self.rate_sample.prior_delivered {
            self.rate_sample.prior_delivered = pkt.delivered;
            self.rate_sample.prior_time = Some(pkt.delivered_time);
            self.rate_sample.is_app_limited = pkt.is_app_limited;
            self.rate_sample.send_elapsed =
            pkt.time_sent.saturating_duration_since(pkt.first_sent_time);
            self.rate_sample.rtt = pkt.rtt;
            self.rate_sample.ack_elapsed = now.saturating_duration_since(pkt.delivered_time);
            self.first_sent_time = pkt.time_sent;
        }
        if self.largest_acked < pkt.pkt_num {
            self.largest_acked = pkt.pkt_num;
        }
    }

    /// Fills in the sample.
    pub fn generate_rate_sample(&mut self, min_rtt: Duration)
        requires
            old(self).wf(),
        ensures
            *final(self) == old(self).sampled(min_rtt),
            final(self).wf(),
    {
        if self.app_limited() && self.largest_acked > self.end_of_app_limited {
            self.update_app_limited(false);
        }
        if self.rate_sample.prior_time.is_some() {
            let interval = self.rate_sample.send_elapsed.max(self.rate_sample.ack_elapsed);
            self.rate_sample.delivered =
            self.delivered.saturating_sub(self.rate_sample.prior_delivered);
            self.rate_sample.interval = interval;
            if interval.nanos < min_rtt.nanos {
                self.rate_sample.interval = Duration { nanos: 0 };
                return;
            }
            if interval.nanos > 0 {
                let rate = self.rate_sample.delivered as u128 * 1_000_000_000 / interval.nanos;
                self.rate_sample.delivery_rate = if rate > u64::MAX as u128 {
                    u64::MAX
                } else {
                    rate as u64
                };
            }
        }
    }

    pub fn update_app_limited(&mut self, v: bool)
        ensures
            *final(self) == old(self).with_app_limited(v),
    {
        self.end_of_app_limited = if v {
            if self.last_sent_packet >= 1 {
                self.last_sent_packet
            } else {
                1
            }
        } else {
            0
        };
    }

    /// The newest estimate in bytes per second.
    pub fn sample_delivery_rate(&self) -> (r: u64)
        ensures
            r == self.rate_sample.delivery_rate,
    {
        self.rate_sample.delivery_rate
    }
}

} // verus!
