//! HyStart++: the rounds of a slow start.
use vstd::prelude::*;

use crate::time::Duration;
use crate::time::Instant;
use crate::time::MAX_DURATION_NANOS;

verus! {

#[derive(Clone, Copy, Debug, PartialEq, Eq, Structural)]
pub struct Hystart {
    pub enabled: bool,
    /// The packet whose acknowledgement ends the current round.
    pub window_end: Option<u64>,
    pub last_round_min_rtt: Duration,
    pub current_round_min_rtt: Duration,
    pub css_baseline_min_rtt: Duration,
    pub rtt_sample_count: usize,
    /// When conservative slow start began.
    pub css_start_time: Option<Instant>,
    pub css_round_count: usize,
}

impl Hystart {
    /// No round has begun and no RTT has been seen.
    pub open spec fn fresh(enabled: bool) -> Hystart {
        let unseen = Duration { nanos: MAX_DURATION_NANOS };
        Hystart {
            enabled,
            window_end: None,
            last_round_min_rtt: unseen,
            current_round_min_rtt: unseen,
            css_baseline_min_rtt: unseen,
            rtt_sample_count: 0,
            css_start_time: None,
            css_round_count: 0,
        }
    }

    /// A round that ends with packet `pkt_num` begins, unless one is under way.
    pub open spec fn in_round(self, pkt_num: u64) -> Hystart {
        if self.window_end is None {
            Hystart {
                window_end: Some(pkt_num),
                last_round_min_rtt: self.current_round_min_rtt,
                current_round_min_rtt: Duration { nanos: MAX_DURATION_NANOS },
                rtt_sample_count: 0,
                ..self
            }
        } else {
            self
        }
    }

    pub fn new(enabled: bool) -> (h: Hystart)
        ensures
            h == Self::fresh(enabled),
    {
        let unseen = Duration { nanos: MAX_DURATION_NANOS };
        Hystart {
            enabled,
            window_end: None,
            last_round_min_rtt: unseen,
            current_round_min_rtt: unseen,
            css_baseline_min_rtt: unseen,
            rtt_sample_count: 0,
            css_start_time: None,
            css_round_count: 0,
        }
    }

    pub fn enabled(&self) -> (r: bool)
        ensures
            r == self.enabled,
    {
        self.enabled
    }

    pub fn reset(&mut self)
        ensures
            *final(self) == Self::fresh(old(self).enabled),
    {
        *self = Hystart::new(self.enabled);
    }

    pub fn start_round(&mut self, pkt_num: u64)
        ensures
            *final(self) == old(self).in_round(pkt_num),
    {
        if self.window_end.is_none() {
            self.window_end = Some(pkt_num);
            self.last_round_min_rtt = self.current_round_min_rtt;
            self.current_round_min_rtt = Duration { nanos: MAX_DURATION_NANOS };
            self.rtt_sample_count = 0;
        }
    }
}

} // verus!
