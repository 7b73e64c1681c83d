//! Detecting acknowledged and lost packets.
use vstd::prelude::*;

use crate::congestion::CongestionControlOps;
use crate::congestion::CongestionState;
use crate::congestion::QuackMetadata;
use crate::congestion::GRANULARITY_NANOS;
use crate::error::Error;
use crate::lists::lemma_count_bound;
use crate::lists::lemma_count_le;
use crate::lists::lemma_pick_from;
use crate::lists::pick;
use crate::lists::records;
use crate::loss::LossOutcome;
use crate::loss::LostPacket;
use crate::model::HandshakeStatus;
use crate::model::RecoveryView;
use crate::packet::Epoch;
use crate::ranges::PktRange;
use crate::ranges::RangeSet;
use crate::recovery::Recovery;
use crate::sent::Acked;
use crate::sent::SentView;
use crate::space::all_wf;
use crate::space::fresh;
use crate::space::hits;
use crate::space::in_order;
use crate::space::regular;
use crate::space::spurious;
use crate::space::AckOutcome;
use crate::tally::lemma_ack_tally;
use crate::tally::lemma_drain_tally;
use crate::tally::lemma_loss_tally;
use crate::time::Duration;
use crate::time::Instant;

verus! {

/// Every time of the records is a clock reading.
pub open spec fn records_wf(acked: Seq<Acked>) -> bool {
    forall|i: int| 0 <= i < acked.len() ==> (#[trigger] acked[i]).wf()
}

/// The records of packets whose times are clock readings are such.
pub(crate) proof fn lemma_records_wf(
    s: Seq<SentView>,
    keep: spec_fn(int) -> bool,
    now: Instant,
)
    requires
        all_wf(s),
        now.in_range(),
    ensures
        records_wf(records(pick(s, keep), now)),
{
    let picked = pick(s, keep);
    assert forall|k: int| 0 <= k < records(picked, now).len() implies (
    #[trigger] records(picked, now)[k]).wf() by {
        let i = lemma_pick_from(s, keep, k);
        assert(s[i].wf());
    }
}

/// Marking acknowledged packets keeps the state consistent.
proof fn lemma_ack_marked<C: CongestionControlOps>(
    m: RecoveryView<C>,
    rs: Seq<PktRange>,
    e: Epoch,
    now: Instant,
)
    requires
        m.wf(),
        now.in_range(),
        m.space(e).sent.len() <= usize::MAX,
    ensures
        m.with_ack_marked(rs, e, now).wf(),
        m.lost_spurious_count + m.ack_outcome(rs, e, now).spurious <= usize::MAX,
        m.ack_outcome(rs, e, now).largest_newly_acked_sent_time.in_range(),
{
    let s = m.space(e).sent;
    let n = s.len() as int;
    lemma_ack_tally(m.space(e), rs, now);
    lemma_count_le(n, spurious(s, rs), hits(s, rs));
    lemma_count_bound(n, spurious(s, rs));
    let accepted = pick(s.take(n), regular(s, rs));
    if accepted.len() > 0 {
        let i = lemma_pick_from(s.take(n), regular(s, rs), accepted.len() - 1);
        assert(s[i].wf());
    }
}

impl<C: CongestionControlOps> Recovery<C> {
    /// The time threshold for spurious losses.
    fn reorder_delay(&self) -> (d: Duration)
        requires
            self@.wf(),
        ensures
            d == self@.reorder_delay(),
            d.nanos <= 0x800_0000_0000_0000_0000_0000,
    {
        self.path.latest_rtt.max(self.path.rtt()).eighths(self.time_thresh)
    }

    /// Updates the RTT estimate with a sample.
    pub(crate) fn update_rtt(&mut self, latest_rtt: Duration, ack_delay: Duration, now: Instant)
        requires
            old(self)@.wf(),
            latest_rtt.in_range(),
            ack_delay.in_range(),
            now.in_range(),
        ensures
            final(self)@ == old(self)@.with_rtt(latest_rtt, ack_delay, now),
            final(self)@.wf(),
    {
        self.path.update_rtt(latest_rtt, ack_delay, self.max_ack_delay, now);
    }

    /// Tells the algorithm of a loss.
    pub(crate) fn congestion_event(
        &mut self,
        lost_bytes: usize,
        time_sent: Instant,
        epoch: Epoch,
        now: Instant,
        metadata: Option<QuackMetadata>,
    )
        requires
            old(self)@.wf(),
            now.in_range(),
        ensures
            final(self)@ == old(self)@.with_congestion(
                lost_bytes,
                time_sent,
                epoch,
                now,
                metadata,
            ),
            final(self)@.wf(),
    {
        if !self.path.in_congestion_recovery(time_sent) {
            self.cc_ops.checkpoint(&mut self.path);
        }
        self.cc_ops.congestion_event(
            &mut self.path,
            lost_bytes,
            time_sent,
            epoch,
            now,
            metadata,
        );
    }

    /// Whether congestion has persisted for long. Such a period is not
    /// detected yet.
    fn in_persistent_congestion(&self, _largest_lost_pkt_num: u64) -> (r: bool)
        ensures
            !r,
    {
        false
    }

    fn on_packets_lost(
        &mut self,
        lost_bytes: usize,
        largest_lost_pkt: LostPacket,
        epoch: Epoch,
        now: Instant,
        metadata: Option<QuackMetadata>,
    )
        requires
            old(self)@.wf(),
            now.in_range(),
        ensures
            final(self)@ == old(self)@.without_in_flight(lost_bytes).with_congestion(
                lost_bytes,
                largest_lost_pkt.time_sent,
                epoch,
                now,
                metadata,
            ),
            final(self)@.wf(),
    {
        self.path.bytes_in_flight = self.path.bytes_in_flight.saturating_sub(lost_bytes);
        self.congestion_event(lost_bytes, largest_lost_pkt.time_sent, epoch, now, metadata);
        if self.in_persistent_congestion(largest_lost_pkt.pkt_num) {
            self.collapse_cwnd();
        }
    }

    /// Congestion persists: the window collapses.
    pub fn collapse_cwnd(&mut self)
        requires
            old(self)@.wf(),
        ensures
            final(self)@ == old(self)@.collapsed(),
            final(self)@.wf(),
    {
        self.cc_ops.collapse_cwnd(&mut self.path);
    }

    /// Removes the packets of a space that need not be remembered.
    fn drain_packets(&mut self, epoch: Epoch, now: Instant)
        requires
            old(self)@.wf(),
            now.in_range(),
        ensures
            final(self)@ == old(self)@.drained(epoch, now),
            final(self)@.wf(),
    {
        let rtt = self.path.rtt();
        proof {
            lemma_drain_tally(self@.space(epoch), rtt, now);
        }
        self.spaces[epoch.index()].drain(rtt, now);
        assert(self@ =~= old(self)@.drained(epoch, now));
    }

    /// Marks the packets of a space that are lost and counts them.
    fn mark_lost_packets(&mut self, epoch: Epoch, now: Instant) -> (o: LossOutcome)
        requires
            old(self)@.wf(),
            now.in_range(),
        ensures
            final(self)@ == old(self)@.with_loss_marked(epoch, now),
            final(self)@.wf(),
            o == old(self)@.loss_outcome(epoch, now),
    {
        // Minimum time of the clock's granularity before packets are deemed
        // lost.
        let loss_delay = self.reorder_delay().max(Duration { nanos: GRANULARITY_NANOS });
        let ghost before = self@;
        proof {
            lemma_loss_tally(self@.space(epoch), now, loss_delay, self.pkt_thresh);
        }
        let o = self.spaces[epoch.index()].mark_lost(now, loss_delay, self.pkt_thresh);
        self.lost_count = self.lost_count + o.lost_packets;
        self.bytes_lost = self.bytes_lost + o.lost_bytes as u64;
        assert(self@ =~= before.with_loss_marked(epoch, now));
        o
    }

    /// Declares packets of a space lost and returns how many, and the bytes
    /// of those that were in flight.
    pub fn detect_lost_packets(&mut self, epoch: Epoch, now: Instant) -> (r: (usize, usize))
        requires
            old(self)@.wf(),
            now.in_range(),
        ensures
            final(self)@ == old(self)@.after_loss(epoch, now),
            final(self)@.wf(),
            r.0 == old(self)@.loss_outcome(epoch, now).lost_packets,
            r.1 == old(self)@.loss_outcome(epoch, now).lost_bytes,
    {
        let o = self.mark_lost_packets(epoch, now);
        if let Some(pkt) = o.largest_lost_pkt {
            self.on_packets_lost(o.lost_bytes, pkt, epoch, now, None);
        }
        self.drain_packets(epoch, now);
        (o.lost_packets, o.lost_bytes)
    }

    /// Tells the delivery rate estimate and the algorithm of acknowledged
    /// packets.
    pub(crate) fn on_packets_acked(&mut self, acked: &mut Vec<Acked>, epoch: Epoch, now: Instant)
        requires
            old(self)@.wf(),
            now.in_range(),
            records_wf(old(acked)@),
        ensures
            (final(self)@, final(acked)@) == old(self)@.after_acked(old(acked)@, epoch, now),
            final(self)@.wf(),
    {
        let ghost rate = self.path.delivery_rate;
        let len = acked.len();
        let mut i: usize = 0;
        assert(acked@.take(0) =~= Seq::<Acked>::empty());
        // Update delivery rate sample per acked packet.
        while i < len
            invariant
                i <= len,
                len == acked@.len(),
                acked@ == old(acked)@,
                records_wf(acked@),
                now.in_range(),
                self.path.delivery_rate.wf(),
                self.path.delivery_rate == rate.after_all_acked(acked@.take(i as int), now),
                self@ == old(self)@.with_path(
                    (CongestionState {
                        delivery_rate: self.path.delivery_rate,
                        ..old(self)@.path
                    }),
                ),
            decreases len - i,
        {
            assert(acked@[i as int].wf());
            self.path.delivery_rate.update_rate_sample(&acked[i], now);
            i = i + 1;
            assert(acked@.take(i as int).drop_last() =~= acked@.take(i - 1));
        }
        assert(acked@.take(len as int) =~= acked@);
        // Fill in a rate sample.
        self.path.delivery_rate.generate_rate_sample(self.path.min_rtt);
        // Call congestion control hooks.
        self.cc_ops.on_packets_acked(&mut self.path, acked, epoch, now);
    }

    /// Notes the largest packet number that the peer has acknowledged.
    fn raise_largest_acked(&mut self, largest_acked: u64, epoch: Epoch)
        requires
            old(self)@.wf(),
        ensures
            final(self)@ == old(self)@.with_largest_acked(epoch, largest_acked),
            final(self)@.wf(),
    {
        let e = epoch.index();
        if self.spaces[e].largest_acked_pkt == u64::MAX || self.spaces[e].largest_acked_pkt
            < largest_acked {
            self.spaces[e].largest_acked_pkt = largest_acked;
        }
        assert(self@ =~= old(self)@.with_largest_acked(epoch, largest_acked));
    }

    /// Detects and marks acked packets, without removing them from the sent
    /// packets list.
    fn mark_acked_packets(
        &mut self,
        ranges: &RangeSet,
        epoch: Epoch,
        now: Instant,
        newly_acked: &mut Vec<Acked>,
    ) -> (o: AckOutcome)
        requires
            old(self)@.wf(),
            in_order(old(self)@.space(epoch).sent),
            ranges.wf(),
            old(self)@.space(epoch).largest_acked_pkt < u64::MAX,
            forall|n: u64| ranges.has(n) ==> n <= old(self)@.space(epoch).largest_acked_pkt,
            now.in_range(),
            records_wf(old(newly_acked)@),
        ensures
            o == old(self)@.ack_outcome(ranges.ranges@, epoch, now),
            final(self)@ == old(self)@.with_ack_marked(ranges.ranges@, epoch, now),
            final(newly_acked)@ == old(newly_acked)@ + records(
                pick(
                    old(self)@.space(epoch).sent,
                    fresh(old(self)@.space(epoch).sent, ranges.ranges@),
                ),
                now,
            ),
            final(self)@.wf(),
            records_wf(final(newly_acked)@),
            o.largest_newly_acked_sent_time.in_range(),
    {
        let ghost rs = ranges.ranges@;
        let ghost before = self@;
        let e = epoch.index();
        let delay = self.reorder_delay();
        let len = self.spaces[e].sent.len();
        let ghost s = before.space(epoch).sent;
        proof {
            lemma_ack_marked(before, rs, epoch, now);
            lemma_records_wf(s, fresh(s, rs), now);
        }
        let o = self.spaces[e].mark_acked(
            ranges,
            now,
            delay,
            self.pkt_thresh,
            self.time_thresh,
            newly_acked,
        );
        self.pkt_thresh = o.pkt_thresh;
        self.time_thresh = o.time_thresh;
        self.lost_spurious_count = self.lost_spurious_count + o.spurious;
        assert(self@ =~= before.with_ack_marked(rs, epoch, now));
        o
    }

    /// Takes the RTT sample of an ACK frame, if it gives one.
    fn sample_ack(
        &mut self,
        o: AckOutcome,
        largest_acked: u64,
        ack_delay: u64,
        epoch: Epoch,
        now: Instant,
    )
        requires
            old(self)@.wf(),
            o.largest_newly_acked_sent_time.in_range(),
            now.in_range(),
        ensures
            final(self)@ == old(self)@.with_ack_timed(o, largest_acked, ack_delay, epoch, now),
            final(self)@.wf(),
    {
        if o.largest_newly_acked_pkt_num == largest_acked && o.has_ack_eliciting {
            // The packet's sent time could be in the future if pacing is used
            // and the network has a very short RTT.
            let latest_rtt = now.saturating_duration_since(o.largest_newly_acked_sent_time);
            let ack_delay = match epoch {
                Epoch::Application => Duration::from_micros(ack_delay),
                _ => Duration::from_micros(0),
            };
            // Don't update srtt if rtt is zero.
            if !latest_rtt.is_zero() {
                self.update_rtt(latest_rtt, ack_delay, now);
            }
        }
    }

    /// Detects lost packets, tells the algorithm of the acknowledged ones and
    /// starts the timer anew.
    fn settle_ack(
        &mut self,
        newly_acked: &mut Vec<Acked>,
        epoch: Epoch,
        handshake_status: HandshakeStatus,
        now: Instant,
    ) -> (r: (usize, usize))
        requires
            old(self)@.wf(),
            now.in_range(),
            records_wf(old(newly_acked)@),
        ensures
            (final(self)@, final(newly_acked)@) == old(self)@.with_ack_settled(
                old(newly_acked)@,
                epoch,
                handshake_status,
                now,
            ),
            final(self)@.wf(),
            r.0 == old(self)@.loss_outcome(epoch, now).lost_packets,
            r.1 == old(self)@.loss_outcome(epoch, now).lost_bytes,
    {
        let lost = self.detect_lost_packets(epoch, now);
        self.on_packets_acked(newly_acked, epoch, now);
        self.pto_count = 0;
        self.set_loss_detection_timer(handshake_status, now);
        self.drain_packets(epoch, now);
        lost
    }

    /// Processes an ACK frame: marks the packets that it acknowledges and
    /// those that are lost, and updates the RTT, the window and the timer.
    ///
    /// Returns how many packets were lost and the bytes of those in flight.
    pub fn on_ack_received(
        &mut self,
        ranges: &RangeSet,
        ack_delay: u64,
        epoch: Epoch,
        handshake_status: HandshakeStatus,
        now: Instant,
        newly_acked: &mut Vec<Acked>,
    ) -> (r: Result<(usize, usize), Error>)
        requires
            old(self)@.wf(),
            in_order(old(self)@.space(epoch).sent),
            ranges.wf(),
            ranges.ranges@.len() > 0,
            now.in_range(),
            records_wf(old(newly_acked)@),
        ensures
            ({
                let (state, left, losses) = old(self)@.after_ack(
                    ranges.ranges@,
                    ack_delay,
                    epoch,
                    handshake_status,
                    now,
                    old(newly_acked)@,
                );
                &&& final(self)@ == state
                &&& final(newly_acked)@ == left
                &&& r == Ok::<(usize, usize), Error>(losses)
            }),
            final(self)@.wf(),
    {
        let largest_acked = match ranges.last() {
            Some(n) => n,
            None => 0,
        };
        self.raise_largest_acked(largest_acked, epoch);
        let o = self.mark_acked_packets(ranges, epoch, now, newly_acked);
        // Undo congestion window update.
        if o.undo_cwnd {
            let _ = self.cc_ops.rollback(&mut self.path);
        }
        if !o.acked {
            return Ok((0, 0));
        }
        self.sample_ack(o, largest_acked, ack_delay, epoch, now);
        Ok(self.settle_ack(newly_acked, epoch, handshake_status, now))
    }
}

} // verus!
