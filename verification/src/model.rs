//! What a path's recovery state is and how events change it, as functions on
//! mathematical values.
use vstd::arithmetic::power2::pow2;
use vstd::prelude::*;

use crate::congestion::CongestionControlOps;
use crate::congestion::CongestionState;
use crate::congestion::QuackMetadata;
use crate::congestion::GRANULARITY_NANOS;
use crate::congestion::INITIAL_WINDOW_PACKETS;
use crate::hystart::Hystart;
use crate::lists::first_index;
use crate::lists::less;
use crate::lists::pick;
use crate::lists::records;
use crate::loss::LossOutcome;
use crate::metrics::QlogMetrics;
use crate::pacer::Pacer;
use crate::packet::Epoch;
use crate::prr::PRR;
use crate::quack::at_id;
use crate::quack::decoded_power_sum;
use crate::quack::decoded_strawman_b;
use crate::quack::DecodedView;
use crate::ranges::PktRange;
use crate::sent::Acked;
use crate::sent::SentView;
use crate::sidecar::named;
use crate::space::ack_outcome;
use crate::space::fresh;
use crate::space::AckOutcome;
use crate::space::SpaceView;
use crate::time::deadline_lt;
use crate::time::eighths_of;
use crate::time::Duration;
use crate::time::Instant;

verus! {

/// A packet this far before the largest acknowledged one is lost.
pub const INITIAL_PACKET_THRESHOLD: u64 = 3;

/// A packet this many eighths of an RTT old is lost.
pub const INITIAL_TIME_THRESHOLD: u32 = 9;

/// At most this many probes are sent when the probe timer expires.
pub const MAX_PTO_PROBES_COUNT: usize = 2;

/// How many non ACK eliciting packets are sent before one that solicits an
/// ACK.
pub const MAX_OUTSTANDING_NON_ACK_ELICITING: usize = 24;

/// The probe timer backs off up to this exponent.
pub const MAX_PTO_COUNT: u32 = 31;

/// How far the handshake has come.
#[derive(Clone, Copy, Debug, PartialEq, Eq, Structural)]
pub struct HandshakeStatus {
    pub has_handshake_keys: bool,
    pub peer_verified_address: bool,
    pub completed: bool,
}

impl Default for HandshakeStatus {
    /// The handshake is complete.
    fn default() -> (hs: HandshakeStatus)
        ensures
            hs == (HandshakeStatus {
                has_handshake_keys: true,
                peer_verified_address: true,
                completed: true,
            }),
    {
        HandshakeStatus {
            has_handshake_keys: true,
            peer_verified_address: true,
            completed: true,
        }
    }
}

/// What is known about the exchange with a proxy near the sender.
#[verifier::ext_equal]
pub struct SidecarView {
    pub enabled: bool,
    pub ack_reduction: bool,
    pub quack_reset: bool,
    pub quack_count: u32,
    pub quack_threshold: usize,
    pub last_decoded_quack_count: u32,
    pub last_quack_reset: Instant,
    pub quack_epoch: u8,
    pub next_log_index: usize,
    pub log: Seq<u32>,
}

/// The recovery state of a path, with sequences for its lists.
#[verifier::ext_equal]
#[verifier::reject_recursive_types(C)]
pub struct RecoveryView<C> {
    pub loss_detection_timer: Option<Instant>,
    pub pto_count: u32,
    pub spaces: Seq<SpaceView>,
    pub max_ack_delay: Duration,
    pub lost_count: usize,
    pub lost_spurious_count: usize,
    pub pkt_thresh: u64,
    /// In eighths of the RTT.
    pub time_thresh: u32,
    pub cc_ops: C,
    pub path: CongestionState,
    pub bytes_sent: usize,
    pub bytes_lost: u64,
    pub outstanding_non_ack_eliciting: usize,
    pub sidecar: SidecarView,
    pub qlog_metrics: QlogMetrics,
}

/// The pacing rate of a window that is sent a little faster than once per RTT,
/// in bytes per second.
pub open spec fn pacing_rate(window: usize, srtt: Duration) -> u64 {
    if srtt.nanos == 0 {
        if window == 0 {
            0
        } else {
            u64::MAX
        }
    } else {
        let rate = 5 * window * 1_000_000_000 / (4 * srtt.nanos as int);
        if rate > u64::MAX {
            u64::MAX
        } else {
            rate as u64
        }
    }
}

/// A deadline and the space that it belongs to.
pub type Deadline = (Option<Instant>, Epoch);

/// The next deadline is taken if there is none yet, or if it sorts before the
/// current one. No deadline sorts before every deadline.
pub open spec fn choose_deadline(current: Deadline, time: Option<Instant>, e: Epoch) -> Deadline {
    if current.0 is None || deadline_lt(time, current.0) {
        (time, e)
    } else {
        current
    }
}

/// The deadline `nanos` after a time, if there is one.
pub open spec fn later(time: Option<Instant>, nanos: int) -> Option<Instant> {
    match time {
        Some(t) => Some(Instant::at(t.nanos + nanos)),
        None => None,
    }
}

impl SidecarView {
    pub open spec fn wf(self) -> bool {
        &&& self.next_log_index <= self.log.len()
        &&& self.log.len() < usize::MAX
        &&& self.last_quack_reset.in_range()
    }

    /// Up to where the log goes into the sender's quack so that the last value
    /// of a received one is covered: behind the first place of that value, or
    /// the end.
    pub open spec fn covered(self, last_value: u32) -> int {
        let n = self.log.len() as int;
        let f = first_index(self.next_log_index as int, n, at_id(self.log, last_value));
        if f < n {
            f + 1
        } else {
            n
        }
    }

    /// The identifiers that go into the sender's quack.
    pub open spec fn inserted(self, last_value: u32) -> Seq<u32> {
        self.log.subrange(self.next_log_index as int, self.covered(last_value))
    }

    /// The state once the log is covered up to the last value.
    pub open spec fn with_covered(self, last_value: u32) -> SidecarView {
        let k = self.covered(last_value) - self.next_log_index;
        SidecarView {
            next_log_index: self.covered(last_value) as usize,
            quack_count: ((self.quack_count + k) % 0x1_0000_0000) as u32,
            ..self
        }
    }

    /// The state of an exchange that starts anew.
    pub open spec fn restarted(self, now: Instant) -> SidecarView {
        SidecarView {
            last_quack_reset: now,
            quack_count: 0,
            last_decoded_quack_count: 0,
            log: Seq::empty(),
            next_log_index: 0,
            ..self
        }
    }

    /// How long a reset may take to be acted on before another one is sent, in
    /// nanoseconds.
    pub open spec fn reset_threshold_nanos(self) -> int {
        if self.ack_reduction {
            300_000_000
        } else {
            10_000_000
        }
    }

    /// The state once a reset is about to be sent.
    pub open spec fn resetting(self) -> SidecarView {
        SidecarView { quack_epoch: ((self.quack_epoch + 1) % 256) as u8, ..self }
    }

    /// A reset is to be sent.
    pub open spec fn reset_due(self, now: Instant) -> bool {
        self.quack_reset && now.since(self.last_quack_reset).nanos > self.reset_threshold_nanos()
    }

    /// The state once the settled part of the log is gone, and the missing
    /// identifiers with it.
    pub open spec fn settled(
        self,
        missing_indexes: Seq<usize>,
        drain_index: int,
        num_reordered: int,
    ) -> SidecarView {
        SidecarView {
            quack_count: ((self.quack_count - missing_indexes.len()) % 0x1_0000_0000) as u32,
            log: self.log.skip(drain_index),
            next_log_index: num_reordered as usize,
            ..self
        }
    }

    /// The place of a loss that the proxy reports.
    pub open spec fn metadata(self) -> QuackMetadata {
        if self.ack_reduction {
            QuackMetadata { near_subpath_numer: 40, near_subpath_denom: 41 }
        } else {
            QuackMetadata { near_subpath_numer: 2, near_subpath_denom: 152 }
        }
    }
}

/// What to do about a received quack.
#[derive(Clone, Copy, Debug, PartialEq, Eq, Structural)]
pub enum QuackAction {
    /// The quack says nothing new.
    Ignore,
    /// The sender and the proxy disagree: the exchange has to start anew.
    Reset,
    /// All that was sent was received.
    Settle,
    /// The difference of the quacks, which counts this many identifiers, is to
    /// be decoded.
    Decode { missing: u32 },
}

impl<C: CongestionControlOps> RecoveryView<C> {
    pub open spec fn unlost_count(self) -> nat {
        self.spaces[0].unlost_count() + self.spaces[1].unlost_count()
            + self.spaces[2].unlost_count()
    }

    pub open spec fn unlost_bytes(self) -> nat {
        self.spaces[0].unlost_bytes() + self.spaces[1].unlost_bytes()
            + self.spaces[2].unlost_bytes()
    }

    pub open spec fn unacked_count(self) -> nat {
        self.spaces[0].unacked_count() + self.spaces[1].unacked_count()
            + self.spaces[2].unacked_count()
    }

    /// What every operation keeps. A packet that is lost was sent, and is lost
    /// and found again at most once.
    pub open spec fn wf(self) -> bool {
        &&& self.spaces.len() == 3
        &&& self.spaces[0].wf()
        &&& self.spaces[1].wf()
        &&& self.spaces[2].wf()
        &&& self.path.wf()
        &&& self.sidecar.wf()
        &&& self.max_ack_delay.in_range()
        &&& self.pto_count <= MAX_PTO_COUNT
        &&& self.time_thresh <= 10
        &&& self.bytes_lost + self.unlost_bytes() <= self.bytes_sent
        &&& self.lost_count + self.unlost_count() <= usize::MAX
        &&& self.lost_spurious_count + self.unacked_count() <= usize::MAX
    }

    pub open spec fn space(self, e: Epoch) -> SpaceView {
        self.spaces[e.rank()]
    }

    pub open spec fn with_space(self, e: Epoch, s: SpaceView) -> Self {
        RecoveryView { spaces: self.spaces.update(e.rank(), s), ..self }
    }

    pub open spec fn with_path(self, path: CongestionState) -> Self {
        RecoveryView { path, ..self }
    }

    /// When a packet will be lost next, with its space. The spaces are gone
    /// through in order; a space without a loss time takes precedence over
    /// those before it.
    pub open spec fn loss_deadline(self) -> Deadline {
        let initial = (self.spaces[0].loss_time, Epoch::Initial);
        let handshake = choose_deadline(initial, self.spaces[1].loss_time, Epoch::Handshake);
        choose_deadline(handshake, self.spaces[2].loss_time, Epoch::Application)
    }

    /// The deadline of a space, if it has packets in flight.
    pub open spec fn choose_probe(self, current: Deadline, e: Epoch, nanos: int) -> Deadline {
        let s = self.space(e);
        if s.in_flight_count == 0 {
            current
        } else {
            choose_deadline(current, later(s.time_of_last_sent_ack_eliciting_pkt, nanos), e)
        }
    }

    /// The factor by which the probe timer has backed off.
    pub open spec fn backoff(self) -> int {
        pow2(self.pto_count as nat) as int
    }

    /// When to send a probe, with the space to send it in.
    pub open spec fn probe_deadline(self, hs: HandshakeStatus, now: Instant) -> Deadline {
        let wait = self.path.pto_nanos() * self.backoff();
        if self.path.bytes_in_flight == 0 {
            (
                Some(Instant::at(now.nanos + wait)),
                if hs.has_handshake_keys {
                    Epoch::Handshake
                } else {
                    Epoch::Initial
                },
            )
        } else {
            let initial = self.choose_probe((None, Epoch::Initial), Epoch::Initial, wait);
            let handshake = self.choose_probe(initial, Epoch::Handshake, wait);
            if hs.completed {
                self.choose_probe(
                    handshake,
                    Epoch::Application,
                    wait + self.max_ack_delay.nanos * self.backoff(),
                )
            } else {
                handshake
            }
        }
    }

    /// The value of the loss detection timer.
    pub open spec fn timer(self, hs: HandshakeStatus, now: Instant) -> Option<Instant> {
        if self.loss_deadline().0 is Some {
            self.loss_deadline().0
        } else if self.path.bytes_in_flight == 0 && hs.peer_verified_address {
            None
        } else {
            self.probe_deadline(hs, now).0
        }
    }

    pub open spec fn with_timer(self, hs: HandshakeStatus, now: Instant) -> Self {
        RecoveryView { loss_detection_timer: self.timer(hs, now), ..self }
    }

    /// The larger of the latest and the smoothed RTT.
    pub open spec fn max_rtt(self) -> Duration {
        self.path.latest_rtt.spec_max(self.path.spec_rtt())
    }

    /// The time threshold for spurious losses.
    pub open spec fn reorder_delay(self) -> Duration {
        Duration::of(eighths_of(self.max_rtt().nanos as int, self.time_thresh as int))
    }

    /// The time threshold for losses.
    pub open spec fn loss_delay(self) -> Duration {
        self.reorder_delay().spec_max(Duration { nanos: GRANULARITY_NANOS })
    }

    /// A loss is told to the congestion control algorithm.
    pub open spec fn with_congestion(
        self,
        lost_bytes: usize,
        time_sent: Instant,
        e: Epoch,
        now: Instant,
        metadata: Option<QuackMetadata>,
    ) -> Self {
        let (ops, path) = if self.path.recovering(time_sent) {
            (self.cc_ops, self.path)
        } else {
            self.cc_ops.after_checkpoint(self.path)
        };
        let (ops, path) = ops.after_congestion(path, lost_bytes, time_sent, e, now, metadata);
        RecoveryView { cc_ops: ops, path, ..self }
    }

    /// The window collapses.
    pub open spec fn collapsed(self) -> Self {
        let (ops, path) = self.cc_ops.after_collapse(self.path);
        RecoveryView { cc_ops: ops, path, ..self }
    }

    /// Lost bytes are no longer in flight.
    pub open spec fn without_in_flight(self, lost_bytes: usize) -> Self {
        self.with_path(
            CongestionState {
                bytes_in_flight: less(self.path.bytes_in_flight, lost_bytes as int),
                ..self.path
            },
        )
    }

    /// The counters once packets have been lost.
    pub open spec fn with_loss_counted(self, o: LossOutcome) -> Self {
        RecoveryView {
            lost_count: (self.lost_count + o.lost_packets) as usize,
            bytes_lost: (self.bytes_lost + o.lost_bytes) as u64,
            ..self
        }
    }

    pub open spec fn drained(self, e: Epoch, now: Instant) -> Self {
        self.with_space(e, self.space(e).drained(self.path.spec_rtt(), now))
    }

    /// What is lost in a space.
    pub open spec fn loss_outcome(self, e: Epoch, now: Instant) -> LossOutcome {
        self.space(e).loss_outcome(now, self.loss_delay(), self.pkt_thresh)
    }

    /// The packets of a space that are lost are marked and counted.
    pub open spec fn with_loss_marked(self, e: Epoch, now: Instant) -> Self {
        self.with_space(
            e,
            self.space(e).after_loss(now, self.loss_delay(), self.pkt_thresh),
        ).with_loss_counted(self.loss_outcome(e, now))
    }

    /// The lost bytes are no longer in flight and the algorithm is told of
    /// them, if there are any.
    pub open spec fn with_loss_told(self, o: LossOutcome, e: Epoch, now: Instant) -> Self {
        match o.largest_lost_pkt {
            Some(p) => self.without_in_flight(o.lost_bytes).with_congestion(
                o.lost_bytes,
                p.time_sent,
                e,
                now,
                None,
            ),
            None => self,
        }
    }

    /// The state once lost packets have been detected in a space.
    pub open spec fn after_loss(self, e: Epoch, now: Instant) -> Self {
        self.with_loss_marked(e, now).with_loss_told(self.loss_outcome(e, now), e, now).drained(
            e,
            now,
        )
    }

    /// The state once acknowledged packets have been told to the delivery rate
    /// estimate and to the congestion control algorithm.
    pub open spec fn after_acked(self, acked: Seq<Acked>, e: Epoch, now: Instant) -> (
        Self,
        Seq<Acked>,
    ) {
        let rate = self.path.delivery_rate.after_all_acked(acked, now).sampled(
            self.path.min_rtt,
        );
        let path = CongestionState { delivery_rate: rate, ..self.path };
        let (ops, path, left) = self.cc_ops.after_acked(path, acked, e, now);
        (RecoveryView { cc_ops: ops, path, ..self }, left)
    }

    /// The largest acknowledged packet number of a space is raised.
    pub open spec fn with_largest_acked(self, e: Epoch, largest: u64) -> Self {
        let s = self.space(e);
        let raised = if s.largest_acked_pkt == u64::MAX || s.largest_acked_pkt < largest {
            largest
        } else {
            s.largest_acked_pkt
        };
        self.with_space(e, SpaceView { largest_acked_pkt: raised, ..s })
    }

    /// What the ranges do to the packets of a space.
    pub open spec fn ack_outcome(self, ranges: Seq<PktRange>, e: Epoch, now: Instant) -> AckOutcome {
        let s = self.space(e);
        ack_outcome(
            s.sent,
            s.sent.len() as int,
            ranges,
            now,
            self.reorder_delay(),
            s.largest_acked_pkt,
            self.pkt_thresh,
            self.time_thresh,
        )
    }

    /// The packets that the ranges acknowledge are marked, and the thresholds
    /// are raised for those that had been lost.
    pub open spec fn with_ack_marked(self, ranges: Seq<PktRange>, e: Epoch, now: Instant) -> Self {
        let o = self.ack_outcome(ranges, e, now);
        RecoveryView {
            pkt_thresh: o.pkt_thresh,
            time_thresh: o.time_thresh,
            lost_spurious_count: (self.lost_spurious_count + o.spurious) as usize,
            ..self.with_space(e, self.space(e).after_ack(ranges, now))
        }
    }

    /// A loss that was spurious is undone.
    pub open spec fn with_rollback(self, undo_cwnd: bool) -> Self {
        if undo_cwnd {
            let (ops, path, restored) = self.cc_ops.after_rollback(self.path);
            RecoveryView { cc_ops: ops, path, ..self }
        } else {
            self
        }
    }

    pub open spec fn with_rtt(
        self,
        latest_rtt: Duration,
        ack_delay: Duration,
        now: Instant,
    ) -> Self {
        self.with_path(self.path.with_rtt(latest_rtt, ack_delay, self.max_ack_delay, now))
    }

    /// The largest packet of an ACK frame gives an RTT sample, if it is newly
    /// acknowledged and some packet of the frame elicits acknowledgements.
    pub open spec fn with_ack_timed(
        self,
        o: AckOutcome,
        largest: u64,
        ack_delay: u64,
        e: Epoch,
        now: Instant,
    ) -> Self {
        let latest_rtt = now.since(o.largest_newly_acked_sent_time);
        if o.largest_newly_acked_pkt_num == largest && o.has_ack_eliciting && latest_rtt.nanos
            > 0 {
            self.with_rtt(
                latest_rtt,
                if e is Application {
                    Duration::of(ack_delay * 1_000)
                } else {
                    Duration::of(0)
                },
                now,
            )
        } else {
            self
        }
    }

    /// The state once an ACK frame has acknowledged packets: others are lost,
    /// the algorithm is told, and the timer starts anew. With it the records
    /// that are left.
    pub open spec fn with_ack_settled(
        self,
        newly_acked: Seq<Acked>,
        e: Epoch,
        hs: HandshakeStatus,
        now: Instant,
    ) -> (Self, Seq<Acked>) {
        let (told, left) = self.after_loss(e, now).after_acked(newly_acked, e, now);
        (RecoveryView { pto_count: 0, ..told }.with_timer(hs, now).drained(e, now), left)
    }

    /// The result of an ACK frame: the state, the records that are left, and
    /// the packets and bytes that were lost.
    pub open spec fn after_ack(
        self,
        ranges: Seq<PktRange>,
        ack_delay: u64,
        e: Epoch,
        hs: HandshakeStatus,
        now: Instant,
        newly_acked: Seq<Acked>,
    ) -> (Self, Seq<Acked>, (usize, usize)) {
        let largest = (ranges.last().end - 1) as u64;
        let raised = self.with_largest_acked(e, largest);
        let s = raised.space(e).sent;
        let o = raised.ack_outcome(ranges, e, now);
        let newly_acked = newly_acked + records(pick(s, fresh(s, ranges)), now);
        let marked = raised.with_ack_marked(ranges, e, now).with_rollback(o.undo_cwnd);
        if !o.acked {
            (marked, newly_acked, (0, 0))
        } else {
            let timed = marked.with_ack_timed(o, largest, ack_delay, e, now);
            let lost = timed.loss_outcome(e, now);
            let (state, left) = timed.with_ack_settled(newly_acked, e, hs, now);
            (state, left, (lost.lost_packets, lost.lost_bytes))
        }
    }

    /// The space in which to probe when the timer has expired.
    pub open spec fn probe_space(self, hs: HandshakeStatus, now: Instant) -> Epoch {
        if self.path.bytes_in_flight > 0 {
            self.probe_deadline(hs, now).1
        } else if hs.has_handshake_keys {
            Epoch::Handshake
        } else {
            Epoch::Initial
        }
    }

    /// The probes are scheduled and the timer backs off.
    pub open spec fn with_probes(self, e: Epoch) -> Self {
        let pto_count = (self.pto_count + 1) as u32;
        let n = if pto_count <= MAX_PTO_PROBES_COUNT {
            pto_count as usize
        } else {
            MAX_PTO_PROBES_COUNT
        };
        let s = self.space(e);
        RecoveryView {
            pto_count,
            ..self.with_space(
                e,
                SpaceView {
                    loss_probes: n,
                    lost: s.lost + s.probe_frames(n as int),
                    ..s
                },
            )
        }
    }

    /// The state once the loss detection timer has expired.
    pub open spec fn after_timeout(self, hs: HandshakeStatus, now: Instant) -> Self {
        let (time, e) = self.loss_deadline();
        if time is Some {
            self.after_loss(e, now).with_timer(hs, now)
        } else {
            self.with_probes(self.probe_space(hs, now)).with_timer(hs, now)
        }
    }

    /// The packets and bytes that are lost when the timer has expired.
    pub open spec fn timeout_losses(self, now: Instant) -> (usize, usize) {
        let (time, e) = self.loss_deadline();
        if time is Some {
            let o = self.loss_outcome(e, now);
            (o.lost_packets, o.lost_bytes)
        } else {
            (0, 0)
        }
    }

    /// The packets of a space are forgotten and no longer in flight.
    pub open spec fn without_space(self, e: Epoch) -> Self {
        let flying = self.space(e).flying_bytes();
        self.with_path(
            CongestionState {
                bytes_in_flight: less(self.path.bytes_in_flight, flying as int),
                ..self.path
            },
        ).with_space(e, self.space(e).discarded())
    }

    /// The state once the keys of a space are gone.
    pub open spec fn after_discard(self, e: Epoch, hs: HandshakeStatus, now: Instant) -> Self {
        self.without_space(e).with_timer(hs, now)
    }

    /// How many packets are remembered.
    pub open spec fn sent_count(self) -> nat {
        self.spaces[0].sent.len() + self.spaces[1].sent.len() + self.spaces[2].sent.len()
    }

    /// The list and its counters have room for one more packet.
    pub open spec fn has_list_room(self, size: usize) -> bool {
        &&& self.bytes_sent + size <= usize::MAX
        &&& self.lost_count + self.sent_count() < usize::MAX
        &&& self.lost_spurious_count + self.sent_count() < usize::MAX
        &&& self.sidecar.log.len() + 1 < usize::MAX
    }

    /// The lists of packets and what is counted of them are the same.
    pub open spec fn same_list(self, other: Self) -> bool {
        &&& self.bytes_sent == other.bytes_sent
        &&& self.lost_count == other.lost_count
        &&& self.lost_spurious_count == other.lost_spurious_count
        &&& self.sidecar == other.sidecar
        &&& self.spaces[0].sent == other.spaces[0].sent
        &&& self.spaces[1].sent == other.spaces[1].sent
        &&& self.spaces[2].sent == other.spaces[2].sent
    }

    /// All counters have room for one more packet.
    pub open spec fn has_room(self, size: usize) -> bool {
        &&& self.has_list_room(size)
        &&& self.path.bytes_in_flight + size <= usize::MAX
        &&& self.outstanding_non_ack_eliciting < usize::MAX
        &&& self.spaces[0].in_flight_count < usize::MAX
        &&& self.spaces[1].in_flight_count < usize::MAX
        &&& self.spaces[2].in_flight_count < usize::MAX
    }

    /// The packet is counted.
    pub open spec fn with_sent_counted(self, pkt_num: u64, ack_eliciting: bool, e: Epoch) -> Self {
        let s = self.space(e);
        RecoveryView {
            outstanding_non_ack_eliciting: if ack_eliciting {
                0
            } else {
                (self.outstanding_non_ack_eliciting + 1) as usize
            },
            ..self.with_space(
                e,
                SpaceView {
                    largest_sent_pkt: if s.largest_sent_pkt >= pkt_num {
                        s.largest_sent_pkt
                    } else {
                        pkt_num
                    },
                    ..s
                },
            )
        }
    }

    /// One more packet of the space is in flight.
    pub open spec fn with_one_in_flight(self, ack_eliciting: bool, e: Epoch, now: Instant) -> Self {
        let s = self.space(e);
        self.with_space(
            e,
            SpaceView {
                time_of_last_sent_ack_eliciting_pkt: if ack_eliciting {
                    Some(now)
                } else {
                    s.time_of_last_sent_ack_eliciting_pkt
                },
                in_flight_count: (s.in_flight_count + 1) as usize,
                ..s
            },
        )
    }

    pub open spec fn with_app_limited(self, v: bool) -> Self {
        self.with_path(CongestionState { app_limited: v, ..self.path })
    }

    /// The algorithm is told of a packet.
    pub open spec fn with_cc_sent(self, sent_bytes: usize, now: Instant) -> Self {
        let (ops, path) = self.cc_ops.after_sent(self.path, sent_bytes, now);
        RecoveryView { cc_ops: ops, path, ..self }
    }

    /// The rate reduction of a recovery period takes note of a packet.
    pub open spec fn with_prr_sent(self, sent_bytes: usize) -> Self {
        self.with_path(
            CongestionState { prr: self.path.prr.after_sent(sent_bytes), ..self.path },
        )
    }

    /// The packet takes to the air: the window, the rate reduction and the
    /// timer take note of it.
    pub open spec fn with_in_flight(
        self,
        sent_bytes: usize,
        ack_eliciting: bool,
        e: Epoch,
        hs: HandshakeStatus,
        now: Instant,
    ) -> Self {
        self.with_one_in_flight(ack_eliciting, e, now).with_app_limited(
            self.path.bytes_in_flight + sent_bytes < self.path.congestion_window,
        ).with_cc_sent(sent_bytes, now).with_prr_sent(sent_bytes).with_timer(hs, now)
    }

    /// A round of a slow start begins.
    pub open spec fn with_round(self, pkt_num: u64, e: Epoch) -> Self {
        if self.path.hystart.enabled && e is Application && self.path.congestion_window
            < self.path.ssthresh {
            self.with_path(
                CongestionState { hystart: self.path.hystart.in_round(pkt_num), ..self.path },
            )
        } else {
            self
        }
    }

    /// The packet is counted and in flight, if it is one that is.
    pub open spec fn with_departed(
        self,
        pkt: SentView,
        e: Epoch,
        hs: HandshakeStatus,
        now: Instant,
    ) -> Self {
        let counted = self.with_sent_counted(pkt.pkt_num, pkt.ack_eliciting, e);
        let flying = if pkt.in_flight {
            counted.with_in_flight(pkt.size, pkt.ack_eliciting, e, hs, now)
        } else {
            counted
        };
        flying.with_round(pkt.pkt_num, e)
    }

    pub open spec fn with_rate(self, rate: u64, now: Instant) -> Self {
        self.with_path(
            CongestionState {
                pacer: self.path.pacer.with_rate(self.path.send_quantum, rate, now),
                ..self.path
            },
        )
    }

    /// The pacing rate follows the window unless the algorithm sets it.
    pub open spec fn with_pacing_rate(self, now: Instant) -> Self {
        if !self.cc_ops.custom_pacing() && self.path.smoothed_rtt is Some {
            self.with_rate(
                pacing_rate(self.path.congestion_window, self.path.smoothed_rtt->0),
                now,
            )
        } else {
            self
        }
    }

    /// The packet counts for pacing if it belongs to the application and the
    /// initial window has been sent.
    pub open spec fn with_paced(self, size: usize, e: Epoch, now: Instant) -> Self {
        let paced = self.path.pacer.enabled && e is Application && self.bytes_sent
            >= self.path.max_datagram_size * INITIAL_WINDOW_PACKETS;
        self.with_path(
            CongestionState {
                pacer: self.path.pacer.after_sent(
                    if paced {
                        size
                    } else {
                        0
                    },
                    now,
                ),
                ..self.path
            },
        )
    }

    /// The packet joins the list of sent packets, with its send time and the
    /// state of the delivery rate estimate noted in it. The estimate is told
    /// what is in flight without the packet. That wraps around for a packet
    /// that is not in flight if it is larger than all that is.
    pub open spec fn with_listed(self, pkt: SentView, e: Epoch) -> Self {
        let timed = SentView { time_sent: self.path.pacer.next_time, ..pkt };
        let rate = self.path.delivery_rate.after_sent(
            timed,
            self.path.bytes_in_flight.wrapping_sub(pkt.size),
        );
        let s = self.space(e);
        RecoveryView {
            path: CongestionState { delivery_rate: rate, ..self.path },
            bytes_sent: (self.bytes_sent + pkt.size) as usize,
            sidecar: if self.sidecar.enabled {
                SidecarView { log: self.sidecar.log.push(pkt.sidecar_id), ..self.sidecar }
            } else {
                self.sidecar
            },
            ..self.with_space(e, SpaceView { sent: s.sent.push(rate.stamped(timed)), ..s })
        }
    }

    /// The state once a packet has been sent.
    pub open spec fn after_sent(
        self,
        pkt: SentView,
        e: Epoch,
        hs: HandshakeStatus,
        now: Instant,
    ) -> Self {
        self.with_departed(pkt, e, hs, now).with_pacing_rate(now).with_paced(
            pkt.size,
            e,
            now,
        ).with_listed(pkt, e)
    }

    /// What a quack with this count and last value asks for.
    pub open spec fn quack_action(self, count: u32, last_value: u32) -> QuackAction {
        let s = self.sidecar;
        let c = s.with_covered(last_value);
        let missing = c.quack_count - count;
        if s.last_decoded_quack_count == count || count == 0 {
            QuackAction::Ignore
        } else if missing < 0 || missing > s.quack_threshold {
            QuackAction::Reset
        } else if missing == 0 && c.next_log_index == s.log.len() {
            QuackAction::Settle
        } else {
            QuackAction::Decode { missing: missing as u32 }
        }
    }

    /// The state once a quack has been looked at.
    pub open spec fn after_quack(self, count: u32, last_value: u32) -> Self {
        let s = self.sidecar;
        let c = SidecarView { last_decoded_quack_count: count, ..s.with_covered(last_value) };
        match self.quack_action(count, last_value) {
            QuackAction::Ignore => self,
            QuackAction::Settle => RecoveryView {
                sidecar: SidecarView { log: Seq::empty(), next_log_index: 0, ..c },
                ..self
            },
            _ => RecoveryView { sidecar: c, ..self },
        }
    }

    /// The packets that the proxy has received, if it acknowledges packets.
    pub open spec fn echoed(self, acked_ids: Set<u32>) -> Seq<SentView> {
        let s = self.space(Epoch::Application);
        if self.sidecar.ack_reduction {
            pick(s.sent, named(s.sent, acked_ids))
        } else {
            Seq::empty()
        }
    }

    /// A quack changes nothing if it was to acknowledge packets and does not.
    pub open spec fn quack_void(self, acked_ids: Set<u32>) -> bool {
        self.sidecar.ack_reduction && self.echoed(acked_ids).len() == 0
    }

    /// The packets that the proxy has received are marked and give an RTT
    /// sample.
    pub open spec fn with_echo(self, acked_ids: Set<u32>, now: Instant) -> Self {
        if self.sidecar.ack_reduction {
            let s = self.space(Epoch::Application);
            let marked = self.with_space(Epoch::Application, s.after_echo(acked_ids, now));
            if self.echoed(acked_ids).len() > 0 {
                marked.with_rtt(
                    now.since(s.last_echo_sent(acked_ids, now)),
                    Duration { nanos: 0 },
                    now,
                )
            } else {
                marked
            }
        } else {
            self
        }
    }

    /// The packets that the proxy misses are lost and no longer in flight.
    pub open spec fn with_miss_marked(self, missing_ids: Set<u32>, now: Instant) -> Self {
        let s = self.space(Epoch::Application);
        let o = s.miss_outcome(missing_ids);
        self.with_space(
            Epoch::Application,
            s.after_miss(missing_ids, now),
        ).with_loss_counted(o).without_in_flight(o.lost_bytes)
    }

    /// The algorithm is told of a loss that the proxy reports.
    pub open spec fn with_sidecar_loss(self, o: LossOutcome, now: Instant) -> Self {
        match o.largest_lost_pkt {
            Some(p) => self.with_congestion(
                o.lost_bytes,
                p.time_sent,
                Epoch::Application,
                now,
                Some(self.sidecar.metadata()),
            ),
            None => self,
        }
    }

    /// The algorithm is told of the packets that the proxy has received, if
    /// there are any.
    pub open spec fn with_sidecar_acked(self, acked: Seq<Acked>, now: Instant) -> Self {
        if acked.len() > 0 {
            self.after_acked(acked, Epoch::Application, now).0
        } else {
            self
        }
    }

    /// The state once a decoded quack has been applied to the sent packets.
    pub open spec fn with_quack_applied(
        self,
        acked_ids: Set<u32>,
        missing_ids: Set<u32>,
        now: Instant,
    ) -> Self {
        let echoed = self.with_echo(acked_ids, now);
        let o = echoed.space(Epoch::Application).miss_outcome(missing_ids);
        echoed.with_miss_marked(missing_ids, now).with_sidecar_loss(o, now).with_sidecar_acked(
            records(self.echoed(acked_ids), now),
            now,
        )
    }

    /// The packets and bytes that a decoded quack shows to be lost.
    pub open spec fn quack_losses(
        self,
        acked_ids: Set<u32>,
        missing_ids: Set<u32>,
        now: Instant,
    ) -> (usize, usize) {
        let o = self.with_echo(acked_ids, now).space(Epoch::Application).miss_outcome(missing_ids);
        (o.lost_packets, o.lost_bytes)
    }

    /// The identifiers of the log at the given positions.
    pub open spec fn ids_of(self, indexes: Seq<usize>) -> Seq<u32> {
        Seq::new(indexes.len(), |i: int| self.sidecar.log[indexes[i] as int])
    }

    /// What a power sum quack says about the log that it covers.
    pub open spec fn decoded_quack(self, missing: u32, roots: Seq<bool>) -> DecodedView {
        decoded_power_sum(
            self.sidecar.log.take(self.sidecar.next_log_index as int),
            missing,
            roots,
        )
    }

    /// The state once a power sum quack has been decoded and applied.
    pub open spec fn after_decoded(self, missing: u32, roots: Seq<bool>, now: Instant) -> Self {
        let d = self.decoded_quack(missing, roots);
        if self.quack_void(d.acked_ids) {
            self
        } else {
            RecoveryView {
                sidecar: self.sidecar.settled(
                    d.missing_indexes,
                    d.drain_index,
                    d.num_reordered,
                ),
                ..self.with_quack_applied(d.acked_ids, d.missing_ids, now)
            }
        }
    }

    /// The state once echoed identifiers have been applied.
    pub open spec fn after_echoes(
        self,
        acked_ids: Set<u32>,
        missing_ids: Set<u32>,
        drain_index: int,
        now: Instant,
    ) -> Self {
        if self.quack_void(acked_ids) {
            self
        } else {
            RecoveryView {
                sidecar: SidecarView { log: self.sidecar.log.skip(drain_index), ..self.sidecar },
                ..self.with_quack_applied(acked_ids, missing_ids, now)
            }
        }
    }

    /// The packets and bytes that echoed identifiers show to be lost.
    pub open spec fn echo_losses(
        self,
        acked_ids: Set<u32>,
        missing_ids: Set<u32>,
        now: Instant,
    ) -> (usize, usize) {
        if self.quack_void(acked_ids) {
            (0, 0)
        } else {
            self.quack_losses(acked_ids, missing_ids, now)
        }
    }

    /// The state once a window of identifiers has been decoded and applied.
    pub open spec fn after_window(self, window: Seq<u32>, now: Instant) -> Self {
        let d = decoded_strawman_b(self.sidecar.log, window);
        self.after_echoes(d.acked_ids, d.missing_ids, d.drain_index, now)
    }

    /// A packet that elicits an acknowledgement should be sent in the space.
    pub open spec fn elicits(self, e: Epoch) -> bool {
        self.space(e).loss_probes > 0 || self.outstanding_non_ack_eliciting
            >= MAX_OUTSTANDING_NON_ACK_ELICITING
    }

    /// The figures that are reported.
    pub open spec fn metrics(self) -> QlogMetrics {
        QlogMetrics {
            min_rtt: self.path.min_rtt,
            smoothed_rtt: self.path.spec_rtt(),
            latest_rtt: self.path.latest_rtt,
            rttvar: self.path.rttvar,
            cwnd: self.path.congestion_window as u64,
            bytes_in_flight: self.path.bytes_in_flight as u64,
            ssthresh: self.path.ssthresh as u64,
            pacing_rate: self.path.pacer.rate,
        }
    }

    /// The datagram size never grows. The window follows it as long as it is
    /// the initial one, and pacing starts anew.
    pub open spec fn with_max_datagram_size(self, new_size: usize, now: Instant) -> Self {
        let size = if new_size < self.path.max_datagram_size {
            new_size
        } else {
            self.path.max_datagram_size
        };
        let window = if self.path.congestion_window == self.path.max_datagram_size
            * INITIAL_WINDOW_PACKETS {
            (size * INITIAL_WINDOW_PACKETS) as usize
        } else {
            self.path.congestion_window
        };
        self.with_path(
            CongestionState {
                congestion_window: window,
                max_datagram_size: size,
                pacer: Pacer::fresh(
                    self.path.pacer.enabled,
                    window,
                    0,
                    size,
                    self.path.pacer.max_pacing_rate,
                    now,
                ),
                ..self.path
            },
        )
    }

    /// The bytes that may be sent at once: any number while probes are due,
    /// else what the window and the rate reduction leave.
    pub open spec fn window_left(self) -> int {
        if self.spaces[0].loss_probes > 0 || self.spaces[1].loss_probes > 0
            || self.spaces[2].loss_probes > 0 {
            usize::MAX as int
        } else {
            less(self.path.congestion_window, self.path.bytes_in_flight as int)
                + self.path.prr.snd_cnt
        }
    }

    /// The state once the algorithm has been set up.
    pub open spec fn after_init(self) -> Self {
        let (ops, path) = self.cc_ops.after_init(self.path);
        RecoveryView { cc_ops: ops, path, ..self }
    }

    /// The state once the window starts anew.
    pub open spec fn after_reset(self) -> Self {
        let cleared = CongestionState {
            congestion_window: (self.path.max_datagram_size * INITIAL_WINDOW_PACKETS) as usize,
            congestion_recovery_start_time: None,
            congestion_recovery_metadata: None,
            ssthresh: usize::MAX,
            ..self.path
        };
        let (ops, path) = self.cc_ops.after_reset(cleared);
        RecoveryView {
            cc_ops: ops,
            path: CongestionState {
                hystart: Hystart::fresh(path.hystart.enabled),
                prr: PRR::idle(),
                ..path
            },
            spaces: Seq::new(
                self.spaces.len(),
                |i: int| SpaceView { in_flight_count: 0, ..self.spaces[i] },
            ),
            ..self
        }
    }
}

} // verus!
