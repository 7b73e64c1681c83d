//! The state that a congestion control algorithm works on, and the hooks
//! through which an algorithm is plugged in.
use std::str::FromStr;
use vstd::prelude::*;

use crate::delivery_rate::Rate;
use crate::error::Error;
use crate::hystart::Hystart;
use crate::minmax::Minmax;
use crate::minmax::Sample;
use crate::pacer::Pacer;
use crate::packet::Epoch;
use crate::prr::PRR;
use crate::sent::Acked;
use crate::time::eighths_of;
use crate::time::sub_abs;
use crate::time::Duration;
use crate::time::Instant;
use crate::time::MAX_DURATION_NANOS;

verus! {

/// The congestion window starts at this many datagrams.
pub const INITIAL_WINDOW_PACKETS: usize = 10;

/// The congestion window never falls below this many datagrams.
pub const MINIMUM_WINDOW_PACKETS: usize = 2;

/// The resolution of timers, in nanoseconds.
pub const GRANULARITY_NANOS: u128 = 1_000_000;

/// The RTT that is used before there is a sample, in nanoseconds.
pub const INITIAL_RTT_NANOS: u128 = 333_000_000;

/// The time over which the smallest RTT is remembered, in nanoseconds.
pub const RTT_WINDOW_NANOS: u128 = 300_000_000_000;

/// Available congestion control algorithms.
#[derive(Clone, Copy, Debug, PartialEq, Eq, Structural)]
pub enum CongestionControlAlgorithm {
    /// Reno congestion control algorithm. `reno` in a string form.
    Reno,
    /// CUBIC congestion control algorithm (default). `cubic` in a string form.
    CUBIC,
    /// BBR congestion control algorithm. `bbr` in a string form.
    BBR,
}

/// Available quack styles.
#[derive(Clone, Copy, Debug, PartialEq, Eq, Structural)]
pub enum QuackStyle {
    /// The coding power sum quack.
    PowerSum,
    /// Echo the identifier of every packet, once.
    StrawmanA,
    /// Echo a window of the last identifiers.
    StrawmanB,
    /// Reserved for a further style.
    StrawmanC,
}

/// What a quack tells about the place of a loss: the share of the path's RTT
/// that lies between the sender and the proxy, as a fraction.
#[derive(Clone, Copy, Debug, PartialEq, Eq, Structural)]
pub struct QuackMetadata {
    pub near_subpath_numer: u32,
    pub near_subpath_denom: u32,
}

fn same_text(a: &str, b: &str) -> (r: bool)
    ensures
        r == (a@ == b@),
{
    a.to_owned() == b.to_owned()
}

impl CongestionControlAlgorithm {
    /// The algorithm with the given string form, or the error if there is
    /// none.
    pub open spec fn named(name: Seq<char>) -> Result<CongestionControlAlgorithm, Error> {
        if name == "reno"@ {
            Ok(CongestionControlAlgorithm::Reno)
        } else if name == "cubic"@ {
            Ok(CongestionControlAlgorithm::CUBIC)
        } else if name == "bbr"@ {
            Ok(CongestionControlAlgorithm::BBR)
        } else {
            Err(Error::CongestionControl)
        }
    }

    /// Looks up an algorithm by its string form.
    pub fn from_name(name: &str) -> (r: Result<CongestionControlAlgorithm, Error>)
        ensures
            r == Self::named(name@),
    {
        if same_text(name, "reno") {
            Ok(CongestionControlAlgorithm::Reno)
        } else if same_text(name, "cubic") {
            Ok(CongestionControlAlgorithm::CUBIC)
        } else if same_text(name, "bbr") {
            Ok(CongestionControlAlgorithm::BBR)
        } else {
            Err(Error::CongestionControl)
        }
    }
}

impl FromStr for CongestionControlAlgorithm {
    type Err = Error;

    /// Converts a string to `CongestionControlAlgorithm`.
    ///
    /// If `name` is not valid, `Error::CongestionControl` is returned.
    fn from_str(name: &str) -> (r: Result<CongestionControlAlgorithm, Error>)
        ensures
            r == Self::named(name@),
    {
        CongestionControlAlgorithm::from_name(name)
    }
}

/// The congestion state of a path.
#[derive(Clone, Copy, Debug, PartialEq, Eq, Structural)]
pub struct CongestionState {
    pub congestion_window: usize,
    pub bytes_in_flight: usize,
    pub ssthresh: usize,
    /// Bytes acknowledged in slow start that have not yet grown the window.
    pub bytes_acked_sl: usize,
    /// Bytes acknowledged in congestion avoidance that have not yet grown the
    /// window.
    pub bytes_acked_ca: usize,
    pub congestion_recovery_start_time: Option<Instant>,
    pub congestion_recovery_metadata: Option<QuackMetadata>,
    pub max_datagram_size: usize,
    /// The application sends less than the window allows.
    pub app_limited: bool,
    /// The largest amount of data that is scheduled and sent together.
    pub send_quantum: usize,
    pub latest_rtt: Duration,
    pub smoothed_rtt: Option<Duration>,
    pub rttvar: Duration,
    pub min_rtt: Duration,
    pub minmax_filter: Minmax,
    pub delivery_rate: Rate,
    pub hystart: Hystart,
    pub pacer: Pacer,
    pub prr: PRR,
}

impl CongestionState {
    pub open spec fn wf(self) -> bool {
        &&& self.max_datagram_size * INITIAL_WINDOW_PACKETS <= usize::MAX
        &&& self.latest_rtt.in_range()
        &&& self.smoothed_rtt matches Some(d) ==> d.in_range()
        &&& self.rttvar.in_range()
        &&& self.min_rtt.in_range()
        &&& self.minmax_filter.wf()
        &&& self.delivery_rate.wf()
        &&& self.pacer.wf()
    }

    /// The state of a path on which nothing has been sent.
    pub open spec fn fresh(
        max_datagram_size: usize,
        hystart: bool,
        pacing: bool,
        max_pacing_rate: Option<u64>,
        now: Instant,
    ) -> CongestionState {
        let window = (max_datagram_size * INITIAL_WINDOW_PACKETS) as usize;
        let none = Duration { nanos: 0 };
        CongestionState {
            congestion_window: window,
            bytes_in_flight: 0,
            ssthresh: usize::MAX,
            bytes_acked_sl: 0,
            bytes_acked_ca: 0,
            congestion_recovery_start_time: None,
            congestion_recovery_metadata: None,
            max_datagram_size,
            app_limited: false,
            send_quantum: window,
            latest_rtt: none,
            smoothed_rtt: None,
            rttvar: Duration::of(INITIAL_RTT_NANOS as int / 2),
            min_rtt: none,
            minmax_filter: Minmax::only((Sample { time: now, value: none })),
            delivery_rate: Rate::fresh(now),
            hystart: Hystart::fresh(hystart),
            pacer: Pacer::fresh(pacing, window, 0, max_datagram_size, max_pacing_rate, now),
            prr: PRR::idle(),
        }
    }

    /// The smoothed RTT, or the initial value before the first sample.
    pub open spec fn spec_rtt(self) -> Duration {
        match self.smoothed_rtt {
            Some(d) => d,
            None => Duration { nanos: INITIAL_RTT_NANOS },
        }
    }

    /// The probe timeout before backoff, in nanoseconds.
    pub open spec fn pto_nanos(self) -> int {
        self.spec_rtt().nanos + if self.rttvar.nanos * 4 >= GRANULARITY_NANOS {
            self.rttvar.nanos * 4
        } else {
            GRANULARITY_NANOS as int
        }
    }

    /// A packet sent at `sent_time` was sent before the current recovery
    /// period began.
    pub open spec fn recovering(self, sent_time: Instant) -> bool {
        self.congestion_recovery_start_time matches Some(t) && sent_time.nanos <= t.nanos
    }

    /// The RTT sample without the delay that the peer reported, as long as
    /// that leaves no less than the smallest RTT.
    pub open spec fn adjusted_rtt(latest: Duration, ack_delay: Duration, min_rtt: Duration) -> int {
        if latest.nanos > min_rtt.nanos + ack_delay.nanos {
            latest.nanos - ack_delay.nanos
        } else {
            latest.nanos as int
        }
    }

    /// The state once an RTT sample has been taken.
    pub open spec fn with_rtt(
        self,
        latest_rtt: Duration,
        ack_delay: Duration,
        max_ack_delay: Duration,
        now: Instant,
    ) -> CongestionState {
        let sample = Sample { time: now, value: latest_rtt };
        match self.smoothed_rtt {
            None => CongestionState {
                latest_rtt,
                minmax_filter: Minmax::only(sample),
                min_rtt: latest_rtt,
                smoothed_rtt: Some(latest_rtt),
                rttvar: Duration::of(latest_rtt.nanos as int / 2),
                ..self
            },
            Some(srtt) => {
                let filter = self.minmax_filter.with_min(
                    Duration { nanos: RTT_WINDOW_NANOS },
                    sample,
                );
                let adjusted = Self::adjusted_rtt(
                    latest_rtt,
                    max_ack_delay.spec_min(ack_delay),
                    filter.best.value,
                );
                let deviation = if srtt.nanos >= adjusted {
                    srtt.nanos - adjusted
                } else {
                    adjusted - srtt.nanos
                };
                CongestionState {
                    latest_rtt,
                    minmax_filter: filter,
                    min_rtt: filter.best.value,
                    smoothed_rtt: Some(
                        Duration::of(eighths_of(srtt.nanos as int, 7) + eighths_of(adjusted, 1)),
                    ),
                    rttvar: Duration::of(
                        eighths_of(self.rttvar.nanos as int, 6) + eighths_of(deviation, 2),
                    ),
                    ..self
                }
            },
        }
    }

    pub fn new(
        max_datagram_size: usize,
        hystart: bool,
        pacing: bool,
        max_pacing_rate: Option<u64>,
        now: Instant,
    ) -> (s: CongestionState)
        requires
            max_datagram_size * INITIAL_WINDOW_PACKETS <= usize::MAX,
            now.in_range(),
        ensures
            s == Self::fresh(max_datagram_size, hystart, pacing, max_pacing_rate, now),
            s.wf(),
    {
        let window = max_datagram_size * INITIAL_WINDOW_PACKETS;
        CongestionState {
            congestion_window: window,
            bytes_in_flight: 0,
            ssthresh: usize::MAX,
            bytes_acked_sl: 0,
            bytes_acked_ca: 0,
            congestion_recovery_start_time: None,
            congestion_recovery_metadata: None,
            max_datagram_size,
            app_limited: false,
            send_quantum: window,
            latest_rtt: Duration { nanos: 0 },
            smoothed_rtt: None,
            rttvar: Duration { nanos: INITIAL_RTT_NANOS / 2 },
            min_rtt: Duration { nanos: 0 },
            minmax_filter: Minmax::new(Duration { nanos: 0 }, now),
            delivery_rate: Rate::new(now),
            hystart: Hystart::new(hystart),
            pacer: Pacer::new(pacing, window, 0, max_datagram_size, max_pacing_rate, now),
            prr: PRR::new(),
        }
    }

    pub fn rtt(&self) -> (d: Duration)
        ensures
            d == self.spec_rtt(),
    {
        match self.smoothed_rtt {
            Some(d) => d,
            None => Duration { nanos: INITIAL_RTT_NANOS },
        }
    }

    pub fn pto(&self) -> (d: Duration)
        requires
            self.wf(),
        ensures
            d.nanos == self.pto_nanos(),
            d.nanos <= 5 * MAX_DURATION_NANOS,
    {
        let var = self.rttvar.nanos * 4;
        Duration {
            nanos: self.rtt().nanos + if var >= GRANULARITY_NANOS {
                var
            } else {
                GRANULARITY_NANOS
            },
        }
    }

    pub fn in_congestion_recovery(&self, sent_time: Instant) -> (r: bool)
        ensures
            r == self.recovering(sent_time),
    {
        match self.congestion_recovery_start_time {
            Some(t) => sent_time.nanos <= t.nanos,
            None => false,
        }
    }

    pub fn update_rtt(
        &mut self,
        latest_rtt: Duration,
        ack_delay: Duration,
        max_ack_delay: Duration,
        now: Instant,
    )
        requires
            old(self).wf(),
            latest_rtt.in_range(),
            ack_delay.in_range(),
            now.in_range(),
        ensures
            *final(self) == old(self).with_rtt(latest_rtt, ack_delay, max_ack_delay, now),
            final(self).wf(),
    {
        self.latest_rtt = latest_rtt;
        match self.smoothed_rtt {
            None => {
                self.min_rtt = self.minmax_filter.reset(now, latest_rtt);
                self.smoothed_rtt = Some(latest_rtt);
                self.rttvar = Duration { nanos: latest_rtt.nanos / 2 };
            },
            Some(srtt) => {
                self.min_rtt =
                self.minmax_filter.running_min(
                    Duration { nanos: RTT_WINDOW_NANOS },
                    now,
                    latest_rtt,
                );
                let ack_delay = max_ack_delay.min(ack_delay);
                let adjusted_rtt = if latest_rtt.nanos > self.min_rtt.nanos + ack_delay.nanos {
                    Duration { nanos: latest_rtt.nanos - ack_delay.nanos }
                } else {
                    latest_rtt
                };
                self.rttvar =
                self.rttvar.eighths(6).plus(sub_abs(srtt, adjusted_rtt).eighths(2));
                self.smoothed_rtt = Some(srtt.eighths(7).plus(adjusted_rtt.eighths(1)));
            },
        }
    }
}

/// After an RTT sample, the smallest RTT is no larger than the sample, and the
/// delay that the peer reports never takes the sample below the smallest RTT.
/// The first sample is the smoothed RTT, and its half the variation.
pub proof fn lemma_rtt_sample(
    s: CongestionState,
    latest_rtt: Duration,
    ack_delay: Duration,
    max_ack_delay: Duration,
    now: Instant,
)
    requires
        s.wf(),
    ensures
        ({
            let t = s.with_rtt(latest_rtt, ack_delay, max_ack_delay, now);
            let adjusted = CongestionState::adjusted_rtt(
                latest_rtt,
                max_ack_delay.spec_min(ack_delay),
                t.min_rtt,
            );
            &&& t.latest_rtt == latest_rtt
            &&& t.min_rtt.nanos <= latest_rtt.nanos
            &&& t.min_rtt.nanos <= adjusted <= latest_rtt.nanos
            &&& s.smoothed_rtt is None ==> t.smoothed_rtt == Some(latest_rtt)
                && t.rttvar.nanos == latest_rtt.nanos / 2
        }),
{
}

/// The hooks of a congestion control algorithm.
///
/// An algorithm keeps what it needs for itself in its own state and reads and
/// writes the congestion state of the path. Each hook is a function of the two,
/// named by the spec function that stands before it.
pub trait CongestionControlOps: Copy {
    spec fn initial() -> Self;

    /// The hooks with the algorithm's own state as it is at first.
    fn start() -> (ops: Self)
        ensures
            ops == Self::initial(),
    ;

    spec fn after_init(self, s: CongestionState) -> (Self, CongestionState);

    fn on_init(&mut self, r: &mut CongestionState)
        requires
            old(r).wf(),
        ensures
            (*final(self), *final(r)) == old(self).after_init(*old(r)),
            final(r).wf(),
    ;

    spec fn after_reset(self, s: CongestionState) -> (Self, CongestionState);

    fn reset(&mut self, r: &mut CongestionState)
        requires
            old(r).wf(),
        ensures
            (*final(self), *final(r)) == old(self).after_reset(*old(r)),
            final(r).wf(),
    ;

    spec fn after_sent(self, s: CongestionState, sent_bytes: usize, now: Instant) -> (
        Self,
        CongestionState,
    );

    /// A packet has been sent: its bytes are in flight.
    fn on_packet_sent(&mut self, r: &mut CongestionState, sent_bytes: usize, now: Instant)
        requires
            old(r).wf(),
            now.in_range(),
            old(r).bytes_in_flight + sent_bytes <= usize::MAX,
        ensures
            (*final(self), *final(r)) == old(self).after_sent(*old(r), sent_bytes, now),
            final(r).wf(),
            final(r).bytes_in_flight == old(r).bytes_in_flight + sent_bytes,
    ;

    spec fn after_acked(
        self,
        s: CongestionState,
        packets: Seq<Acked>,
        epoch: Epoch,
        now: Instant,
    ) -> (Self, CongestionState, Seq<Acked>);

    /// Packets have been acknowledged. The hook may take them out of the list.
    fn on_packets_acked(
        &mut self,
        r: &mut CongestionState,
        packets: &mut Vec<Acked>,
        epoch: Epoch,
        now: Instant,
    )
        requires
            old(r).wf(),
            now.in_range(),
        ensures
            (*final(self), *final(r), final(packets)@) == old(self).after_acked(
                *old(r),
                old(packets)@,
                epoch,
                now,
            ),
            final(r).wf(),
    ;

    spec fn after_congestion(
        self,
        s: CongestionState,
        lost_bytes: usize,
        time_sent: Instant,
        epoch: Epoch,
        now: Instant,
        metadata: Option<QuackMetadata>,
    ) -> (Self, CongestionState);

    /// Packets have been lost, the newest of which was sent at `time_sent`.
    fn congestion_event(
        &mut self,
        r: &mut CongestionState,
        lost_bytes: usize,
        time_sent: Instant,
        epoch: Epoch,
        now: Instant,
        metadata: Option<QuackMetadata>,
    )
        requires
            old(r).wf(),
            now.in_range(),
        ensures
            (*final(self), *final(r)) == old(self).after_congestion(
                *old(r),
                lost_bytes,
                time_sent,
                epoch,
                now,
                metadata,
            ),
            final(r).wf(),
    ;

    spec fn after_collapse(self, s: CongestionState) -> (Self, CongestionState);

    /// Congestion persists.
    fn collapse_cwnd(&mut self, r: &mut CongestionState)
        requires
            old(r).wf(),
        ensures
            (*final(self), *final(r)) == old(self).after_collapse(*old(r)),
            final(r).wf(),
    ;

    spec fn after_checkpoint(self, s: CongestionState) -> (Self, CongestionState);

    /// A new recovery period is about to begin.
    fn checkpoint(&mut self, r: &mut CongestionState)
        requires
            old(r).wf(),
        ensures
            (*final(self), *final(r)) == old(self).after_checkpoint(*old(r)),
            final(r).wf(),
    ;

    spec fn after_rollback(self, s: CongestionState) -> (Self, CongestionState, bool);

    /// A loss turned out to be spurious. The result says whether the state was
    /// restored.
    fn rollback(&mut self, r: &mut CongestionState) -> (restored: bool)
        requires
            old(r).wf(),
        ensures
            (*final(self), *final(r), restored) == old(self).after_rollback(*old(r)),
            final(r).wf(),
    ;

    spec fn custom_pacing(self) -> bool;

    /// The algorithm sets the pacing rate itself.
    fn has_custom_pacing(&self) -> (r: bool)
        ensures
            r == self.custom_pacing(),
    ;
}

} // verus!
