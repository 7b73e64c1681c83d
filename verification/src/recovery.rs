//! The recovery state of a path: what was sent on it and what has become of it.
use vstd::arithmetic::power2::lemma_pow2;
use vstd::arithmetic::power2::lemma_pow2_pos;
use vstd::arithmetic::power2::lemma_pow2_strictly_increases;
use vstd::arithmetic::power2::lemma_pow2_unfold;
use vstd::arithmetic::power2::pow2;
use vstd::prelude::*;

use crate::algorithms::CongestionControl;
use crate::congestion::CongestionControlAlgorithm;
use crate::congestion::CongestionControlOps;
use crate::congestion::CongestionState;
use crate::congestion::INITIAL_WINDOW_PACKETS;
use crate::metrics::MetricsUpdated;
use crate::metrics::QlogMetrics;
use crate::model::later;
use crate::model::HandshakeStatus;
use crate::model::RecoveryView;
use crate::model::SidecarView;
use crate::model::INITIAL_PACKET_THRESHOLD;
use crate::model::INITIAL_TIME_THRESHOLD;
use crate::model::MAX_OUTSTANDING_NON_ACK_ELICITING;
use crate::model::MAX_PTO_COUNT;
use crate::pacer::Pacer;
use crate::packet::Epoch;
use crate::prr::PRR;
use crate::space::PacketSpace;
use crate::space::SpaceView;
use crate::tally::lemma_tally_bound;
use crate::time::deadline_before;
use crate::time::Duration;
use crate::time::Instant;
use crate::time::MAX_DURATION_NANOS;

verus! {

/// The settings of a connection that recovery depends on.
#[derive(Clone, Copy, Debug)]
pub struct Config {
    pub max_send_udp_payload_size: usize,
    pub cc_algorithm: CongestionControlAlgorithm,
    pub hystart: bool,
    pub pacing: bool,
    /// How many missing packets a quack can tell of. With zero there is no
    /// proxy.
    pub sidecar_threshold: usize,
    /// The proxy may be told to start anew.
    pub quack_reset: bool,
    pub max_pacing_rate: Option<u64>,
    /// What the proxy has received counts as acknowledged.
    pub ack_reduction: bool,
}

/// The settings of the recovery state of a path.
pub struct RecoveryConfig<C> {
    pub max_send_udp_payload_size: usize,
    pub max_ack_delay: Duration,
    pub cc_ops: C,
    pub hystart: bool,
    pub pacing: bool,
    pub sidecar_threshold: usize,
    pub quack_reset: bool,
    pub max_pacing_rate: Option<u64>,
    pub ack_reduction: bool,
}

impl<C: CongestionControlOps> RecoveryConfig<C> {
    /// The settings with the hooks of an algorithm.
    pub open spec fn with_ops(config: Config, cc_ops: C) -> RecoveryConfig<C> {
        RecoveryConfig {
            max_send_udp_payload_size: config.max_send_udp_payload_size,
            max_ack_delay: Duration { nanos: 0 },
            cc_ops,
            hystart: config.hystart,
            pacing: config.pacing,
            sidecar_threshold: config.sidecar_threshold,
            quack_reset: config.quack_reset,
            max_pacing_rate: config.max_pacing_rate,
            ack_reduction: config.ack_reduction,
        }
    }

    /// The initial window fits a `usize`, and the delay is one that a clock can
    /// measure.
    pub open spec fn wf(self) -> bool {
        &&& self.max_send_udp_payload_size * INITIAL_WINDOW_PACKETS <= usize::MAX
        &&& self.max_ack_delay.in_range()
    }

    /// The state of a path on which nothing has been sent.
    pub open spec fn initial(self, now: Instant) -> RecoveryView<C> {
        RecoveryView {
            loss_detection_timer: None,
            pto_count: 0,
            spaces: seq![SpaceView::empty(), SpaceView::empty(), SpaceView::empty()],
            max_ack_delay: self.max_ack_delay,
            lost_count: 0,
            lost_spurious_count: 0,
            pkt_thresh: INITIAL_PACKET_THRESHOLD,
            time_thresh: INITIAL_TIME_THRESHOLD,
            cc_ops: self.cc_ops,
            path: CongestionState::fresh(
                self.max_send_udp_payload_size,
                self.hystart,
                self.pacing,
                self.max_pacing_rate,
                now,
            ),
            bytes_sent: 0,
            bytes_lost: 0,
            outstanding_non_ack_eliciting: 0,
            sidecar: SidecarView {
                enabled: self.sidecar_threshold > 0,
                ack_reduction: self.ack_reduction,
                quack_reset: self.quack_reset,
                quack_count: 0,
                quack_threshold: self.sidecar_threshold,
                last_decoded_quack_count: 0,
                last_quack_reset: now,
                quack_epoch: 0,
                next_log_index: 0,
                log: Seq::empty(),
            },
            qlog_metrics: QlogMetrics::zero(),
        }
    }
}

impl<U: CongestionControlOps, B: CongestionControlOps> RecoveryConfig<CongestionControl<U, B>> {
    /// Takes over the settings of a connection, with the hooks of the algorithm
    /// that it names.
    pub fn from_config(config: &Config) -> (r: RecoveryConfig<CongestionControl<U, B>>)
        ensures
            r == Self::with_ops(*config, CongestionControl::of(config.cc_algorithm)),
    {
        RecoveryConfig {
            max_send_udp_payload_size: config.max_send_udp_payload_size,
            max_ack_delay: Duration { nanos: 0 },
            cc_ops: CongestionControl::from(config.cc_algorithm),
            hystart: config.hystart,
            pacing: config.pacing,
            sidecar_threshold: config.sidecar_threshold,
            quack_reset: config.quack_reset,
            max_pacing_rate: config.max_pacing_rate,
            ack_reduction: config.ack_reduction,
        }
    }
}

/// What is known about the exchange with a proxy near the sender.
pub struct SidecarState {
    pub enabled: bool,
    /// What the proxy has received counts as acknowledged.
    pub ack_reduction: bool,
    /// The proxy may be told to start anew.
    pub quack_reset: bool,
    /// How many identifiers the sender's own quack counts.
    pub quack_count: u32,
    /// How many missing identifiers can be decoded.
    pub quack_threshold: usize,
    pub last_decoded_quack_count: u32,
    pub last_quack_reset: Instant,
    pub quack_epoch: u8,
    /// The identifiers of the log before this one are in the sender's quack.
    pub next_log_index: usize,
    /// The identifiers of the packets that were sent and are not settled.
    pub log: Vec<u32>,
}

impl View for SidecarState {
    type V = SidecarView;

    open spec fn view(&self) -> SidecarView {
        SidecarView {
            enabled: self.enabled,
            ack_reduction: self.ack_reduction,
            quack_reset: self.quack_reset,
            quack_count: self.quack_count,
            quack_threshold: self.quack_threshold,
            last_decoded_quack_count: self.last_decoded_quack_count,
            last_quack_reset: self.last_quack_reset,
            quack_epoch: self.quack_epoch,
            next_log_index: self.next_log_index,
            log: self.log@,
        }
    }
}

/// The recovery state of a path.
#[verifier::reject_recursive_types(C)]
pub struct Recovery<C> {
    pub loss_detection_timer: Option<Instant>,
    /// How often the probe timer has expired in a row.
    pub pto_count: u32,
    /// The packet number spaces, in the order of their epochs.
    pub spaces: [PacketSpace; 3],
    pub max_ack_delay: Duration,
    pub lost_count: usize,
    pub lost_spurious_count: usize,
    pub pkt_thresh: u64,
    /// In eighths of the RTT.
    pub time_thresh: u32,
    pub cc_ops: C,
    pub path: CongestionState,
    pub bytes_sent: usize,
    pub bytes_lost: u64,
    /// How many packets in a row did not elicit an acknowledgement.
    pub outstanding_non_ack_eliciting: usize,
    pub sidecar: SidecarState,
    pub qlog_metrics: QlogMetrics,
}

impl<C> View for Recovery<C> {
    type V = RecoveryView<C>;

    open spec fn view(&self) -> RecoveryView<C> {
        RecoveryView {
            loss_detection_timer: self.loss_detection_timer,
            pto_count: self.pto_count,
            spaces: seq![self.spaces@[0]@, self.spaces@[1]@, self.spaces@[2]@],
            max_ack_delay: self.max_ack_delay,
            lost_count: self.lost_count,
            lost_spurious_count: self.lost_spurious_count,
            pkt_thresh: self.pkt_thresh,
            time_thresh: self.time_thresh,
            cc_ops: self.cc_ops,
            path: self.path,
            bytes_sent: self.bytes_sent,
            bytes_lost: self.bytes_lost,
            outstanding_non_ack_eliciting: self.outstanding_non_ack_eliciting,
            sidecar: self.sidecar@,
            qlog_metrics: self.qlog_metrics,
        }
    }
}

/// Two to the power of `n`.
fn two_pow(n: u32) -> (r: u128)
    requires
        n <= MAX_PTO_COUNT,
    ensures
        r == pow2(n as nat),
        1 <= r <= 0x8000_0000,
{
    let mut r: u128 = 1;
    let mut i: u32 = 0;
    proof {
        lemma_pow2(0);
        lemma_pow2_unfold(1);
        vstd::arithmetic::power2::lemma2_to64();
    }
    while i < n
        invariant
            i <= n <= MAX_PTO_COUNT,
            r == pow2(i as nat),
            pow2(31) == 0x8000_0000,
        decreases n - i,
    {
        proof {
            lemma_pow2_unfold((i + 1) as nat);
            if i + 1 < 31 {
                lemma_pow2_strictly_increases((i + 1) as nat, 31);
            }
        }
        r = r * 2;
        i = i + 1;
    }
    proof {
        lemma_pow2_pos(n as nat);
        if n < 31 {
            lemma_pow2_strictly_increases(n as nat, 31);
        }
    }
    r
}

impl<U: CongestionControlOps, B: CongestionControlOps> Recovery<CongestionControl<U, B>> {
    /// The state of a path under the settings of a connection.
    pub fn new(config: &Config, now: Instant) -> (r: Recovery<CongestionControl<U, B>>)
        requires
            config.max_send_udp_payload_size * INITIAL_WINDOW_PACKETS <= usize::MAX,
            now.in_range(),
        ensures
            r@ == RecoveryConfig::with_ops(
                *config,
                CongestionControl::<U, B>::of(config.cc_algorithm),
            ).initial(now),
            r@.wf(),
    {
        Self::new_with_config(&RecoveryConfig::from_config(config), now)
    }
}

impl<C: CongestionControlOps> Recovery<C> {
    pub fn new_with_config(recovery_config: &RecoveryConfig<C>, now: Instant) -> (r: Recovery<C>)
        requires
            recovery_config.wf(),
            now.in_range(),
        ensures
            r@ == recovery_config.initial(now),
            r@.wf(),
    {
        let r = Recovery {
            loss_detection_timer: None,
            pto_count: 0,
            spaces: [PacketSpace::new(), PacketSpace::new(), PacketSpace::new()],
            max_ack_delay: recovery_config.max_ack_delay,
            lost_count: 0,
            lost_spurious_count: 0,
            pkt_thresh: INITIAL_PACKET_THRESHOLD,
            time_thresh: INITIAL_TIME_THRESHOLD,
            cc_ops: recovery_config.cc_ops,
            path: CongestionState::new(
                recovery_config.max_send_udp_payload_size,
                recovery_config.hystart,
                recovery_config.pacing,
                recovery_config.max_pacing_rate,
                now,
            ),
            bytes_sent: 0,
            bytes_lost: 0,
            outstanding_non_ack_eliciting: 0,
            sidecar: SidecarState {
                enabled: recovery_config.sidecar_threshold > 0,
                ack_reduction: recovery_config.ack_reduction,
                quack_reset: recovery_config.quack_reset,
                quack_count: 0,
                quack_threshold: recovery_config.sidecar_threshold,
                last_decoded_quack_count: 0,
                last_quack_reset: now,
                quack_epoch: 0,
                next_log_index: 0,
                log: Vec::new(),
            },
            qlog_metrics: QlogMetrics::new(),
        };
        proof {
            lemma_tally_bound(SpaceView::empty());
            assert(r@ =~= recovery_config.initial(now));
        }
        r
    }

    /// When a packet will be lost next, with its space. A space without a loss
    /// time takes precedence over those before it.
    pub fn loss_time_and_space(&self) -> (r: (Option<Instant>, Epoch))
        ensures
            r == self@.loss_deadline(),
    {
        let mut epoch = Epoch::Initial;
        let mut time = self.spaces[0].loss_time;
        let handshake = self.spaces[1].loss_time;
        if time.is_none() || deadline_before(handshake, time) {
            time = handshake;
            epoch = Epoch::Handshake;
        }
        let application = self.spaces[2].loss_time;
        if time.is_none() || deadline_before(application, time) {
            time = application;
            epoch = Epoch::Application;
        }
        (time, epoch)
    }

    /// When to send a probe, with the space to send it in.
    pub(crate) fn pto_time_and_space(&self, handshake_status: HandshakeStatus, now: Instant) -> (r: (
        Option<Instant>,
        Epoch,
    ))
        requires
            self@.wf(),
            now.in_range(),
        ensures
            r == self@.probe_deadline(handshake_status, now),
    {
        let backoff = two_pow(self.pto_count);
        let pto = self.path.pto();
        let delay = self.max_ack_delay;
        proof {
            assert(0 <= pto.nanos * backoff <= 5 * MAX_DURATION_NANOS * 0x8000_0000)
                by (nonlinear_arith)
                requires
                    0 <= pto.nanos <= 5 * MAX_DURATION_NANOS,
                    1 <= backoff <= 0x8000_0000,
            ;
            assert(0 <= delay.nanos * backoff <= MAX_DURATION_NANOS * 0x8000_0000)
                by (nonlinear_arith)
                requires
                    0 <= delay.nanos <= MAX_DURATION_NANOS,
                    1 <= backoff <= 0x8000_0000,
            ;
        }
        let wait = Duration { nanos: pto.nanos * backoff };
        // Arm PTO from now when there are no inflight packets.
        if self.path.bytes_in_flight == 0 {
            let epoch = if handshake_status.has_handshake_keys {
                Epoch::Handshake
            } else {
                Epoch::Initial
            };
            return (Some(now.plus(wait)), epoch);
        }
        let mut time: Option<Instant> = None;
        let mut epoch = Epoch::Initial;
        if self.spaces[0].in_flight_count > 0 {
            time = self.probe_time(Epoch::Initial, wait);
        }
        if self.spaces[1].in_flight_count > 0 {
            let handshake = self.probe_time(Epoch::Handshake, wait);
            if time.is_none() || deadline_before(handshake, time) {
                time = handshake;
                epoch = Epoch::Handshake;
            }
        }
        // Skip Application Data until handshake completes.
        if self.spaces[2].in_flight_count > 0 && handshake_status.completed {
            // Include max_ack_delay and backoff for Application Data.
            let longer = wait.plus(Duration { nanos: delay.nanos * backoff });
            let application = self.probe_time(Epoch::Application, longer);
            if time.is_none() || deadline_before(application, time) {
                time = application;
                epoch = Epoch::Application;
            }
        }
        (time, epoch)
    }

    /// The time `wait` after the last packet of the space that elicits an
    /// acknowledgement, if there is one.
    fn probe_time(&self, epoch: Epoch, wait: Duration) -> (r: Option<Instant>)
        requires
            self@.wf(),
            wait.nanos <= 0x4000_0000_0000_0000_0000_0000_0000_0000,
        ensures
            r == later(
                self@.space(epoch).time_of_last_sent_ack_eliciting_pkt,
                wait.nanos as int,
            ),
    {
        match self.spaces[epoch.index()].time_of_last_sent_ack_eliciting_pkt {
            Some(t) => Some(t.plus(wait)),
            None => None,
        }
    }

    pub(crate) fn set_loss_detection_timer(
        &mut self,
        handshake_status: HandshakeStatus,
        now: Instant,
    )
        requires
            old(self)@.wf(),
            now.in_range(),
        ensures
            final(self)@ == old(self)@.with_timer(handshake_status, now),
            final(self)@.wf(),
    {
        let (earliest_loss_time, _) = self.loss_time_and_space();
        self.loss_detection_timer = if earliest_loss_time.is_some() {
            // Time threshold loss detection.
            earliest_loss_time
        } else if self.path.bytes_in_flight == 0 && handshake_status.peer_verified_address {
            None
        } else {
            // PTO timer.
            let (timeout, _) = self.pto_time_and_space(handshake_status, now);
            timeout
        };
    }

    /// Sets up the algorithm.
    pub fn on_init(&mut self)
        requires
            old(self)@.wf(),
        ensures
            final(self)@ == old(self)@.after_init(),
            final(self)@.wf(),
    {
        self.cc_ops.on_init(&mut self.path);
    }

    /// Starts the window anew.
    pub fn reset(&mut self)
        requires
            old(self)@.wf(),
        ensures
            final(self)@ == old(self)@.after_reset(),
            final(self)@.wf(),
    {
        self.path.congestion_window = self.path.max_datagram_size * INITIAL_WINDOW_PACKETS;
        self.spaces[0].in_flight_count = 0;
        self.spaces[1].in_flight_count = 0;
        self.spaces[2].in_flight_count = 0;
        self.path.congestion_recovery_start_time = None;
        self.path.congestion_recovery_metadata = None;
        self.path.ssthresh = usize::MAX;
        self.cc_ops.reset(&mut self.path);
        self.path.hystart.reset();
        self.path.prr = PRR::new();
        assert(self@ =~= old(self)@.after_reset());
    }

    /// Returns whether or not we should elicit an ACK even if we wouldn't
    /// otherwise have constructed an ACK eliciting packet.
    pub fn should_elicit_ack(&self, epoch: Epoch) -> (r: bool)
        ensures
            r == self@.elicits(epoch),
    {
        self.spaces[epoch.index()].loss_probes > 0 || self.outstanding_non_ack_eliciting
            >= MAX_OUTSTANDING_NON_ACK_ELICITING
    }

    pub fn loss_detection_timer(&self) -> (t: Option<Instant>)
        ensures
            t == self@.loss_detection_timer,
    {
        self.loss_detection_timer
    }

    pub fn cwnd(&self) -> (n: usize)
        ensures
            n == self@.path.congestion_window,
    {
        self.path.congestion_window
    }

    /// The bytes that may be sent at once.
    pub fn cwnd_available(&self) -> (n: usize)
        requires
            self@.window_left() <= usize::MAX,
        ensures
            n == self@.window_left(),
    {
        // Ignore cwnd when sending probe packets.
        if self.spaces[0].loss_probes > 0 || self.spaces[1].loss_probes > 0
            || self.spaces[2].loss_probes > 0 {
            return usize::MAX;
        }
        // Open more space (snd_cnt) for PRR when allowed.
        self.path.congestion_window.saturating_sub(self.path.bytes_in_flight)
            + self.path.prr.snd_cnt
    }

    /// The smoothed RTT, or the initial value before the first sample.
    pub fn rtt(&self) -> (d: Duration)
        ensures
            d == self@.path.spec_rtt(),
    {
        self.path.rtt()
    }

    /// The smallest RTT of the last minutes, if it is known.
    pub fn min_rtt(&self) -> (d: Option<Duration>)
        ensures
            d == if self@.path.min_rtt.nanos == 0 {
                None
            } else {
                Some(self@.path.min_rtt)
            },
    {
        if self.path.min_rtt.is_zero() {
            return None;
        }
        Some(self.path.min_rtt)
    }

    pub fn rttvar(&self) -> (d: Duration)
        ensures
            d == self@.path.rttvar,
    {
        self.path.rttvar
    }

    /// The probe timeout before backoff.
    pub fn pto(&self) -> (d: Duration)
        requires
            self@.wf(),
        ensures
            d.nanos == self@.path.pto_nanos(),
            d.nanos - self@.path.spec_rtt().nanos == if self@.path.rttvar.nanos >= 250_000 {
                4 * self@.path.rttvar.nanos
            } else {
                1_000_000
            },
    {
        self.path.pto()
    }

    /// The newest estimate of the delivery rate in bytes per second.
    pub fn delivery_rate(&self) -> (r: u64)
        ensures
            r == self@.path.delivery_rate.rate_sample.delivery_rate,
    {
        self.path.delivery_rate.sample_delivery_rate()
    }

    pub fn max_datagram_size(&self) -> (n: usize)
        ensures
            n == self@.path.max_datagram_size,
    {
        self.path.max_datagram_size
    }

    /// Lowers the datagram size, unless the new one is larger.
    pub fn update_max_datagram_size(&mut self, new_max_datagram_size: usize, now: Instant)
        requires
            old(self)@.wf(),
            now.in_range(),
        ensures
            final(self)@ == old(self)@.with_max_datagram_size(new_max_datagram_size, now),
            final(self)@.wf(),
    {
        let max_datagram_size = if new_max_datagram_size < self.path.max_datagram_size {
            new_max_datagram_size
        } else {
            self.path.max_datagram_size
        };
        // Update cwnd if it hasn't been updated yet.
        if self.path.congestion_window == self.path.max_datagram_size * INITIAL_WINDOW_PACKETS {
            self.path.congestion_window = max_datagram_size * INITIAL_WINDOW_PACKETS;
        }
        self.path.pacer = Pacer::new(
            self.path.pacer.enabled(),
            self.path.congestion_window,
            0,
            max_datagram_size,
            self.path.pacer.max_pacing_rate(),
            now,
        );
        self.path.max_datagram_size = max_datagram_size;
    }

    pub fn app_limited(&self) -> (r: bool)
        ensures
            r == self@.path.app_limited,
    {
        self.path.app_limited
    }

    pub fn delivery_rate_update_app_limited(&mut self, v: bool)
        requires
            old(self)@.wf(),
        ensures
            final(self)@ == old(self)@.with_path(
                (CongestionState {
                    delivery_rate: old(self)@.path.delivery_rate.with_app_limited(v),
                    ..old(self)@.path
                }),
            ),
            final(self)@.wf(),
    {
        self.path.delivery_rate.update_app_limited(v);
    }

    /// Makes a report of the figures that have changed since the last one, if
    /// there are any.
    pub fn maybe_qlog(&mut self) -> (r: Option<MetricsUpdated>)
        ensures
            final(self)@ == (RecoveryView { qlog_metrics: old(self)@.metrics(), ..old(self)@ }),
            r == if old(self)@.qlog_metrics == old(self)@.metrics() {
                None
            } else {
                Some(old(self)@.qlog_metrics.report(old(self)@.metrics()))
            },
    {
        let latest = QlogMetrics {
            min_rtt: self.path.min_rtt,
            smoothed_rtt: self.path.rtt(),
            latest_rtt: self.path.latest_rtt,
            rttvar: self.path.rttvar,
            cwnd: self.path.congestion_window as u64,
            bytes_in_flight: self.path.bytes_in_flight as u64,
            ssthresh: self.path.ssthresh as u64,
            pacing_rate: self.path.pacer.rate(),
        };
        self.qlog_metrics.maybe_update(latest)
    }

    pub fn send_quantum(&self) -> (n: usize)
        ensures
            n == self@.path.send_quantum,
    {
        self.path.send_quantum
    }
}

} // verus!
