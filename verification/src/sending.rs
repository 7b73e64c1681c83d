//! What happens when a packet is sent.
use vstd::prelude::*;

use crate::congestion::CongestionControlOps;
use crate::congestion::INITIAL_WINDOW_PACKETS;
use crate::model::pacing_rate;
use crate::model::HandshakeStatus;
use crate::model::RecoveryView;
use crate::packet::Epoch;
use crate::recovery::Recovery;
use crate::sent::Sent;
use crate::sent::SentView;
use crate::space::views;
use crate::tally::lemma_send_tally;
use crate::tally::lemma_tally_bound;
use crate::time::Duration;
use crate::time::Instant;

verus! {

/// The pacing rate of a window that is sent a little faster than once per RTT,
/// in bytes per second.
fn window_rate(window: usize, srtt: Duration) -> (rate: u64)
    requires
        srtt.in_range(),
    ensures
        rate == pacing_rate(window, srtt),
{
    if srtt.nanos == 0 {
        return if window == 0 {
            0
        } else {
            u64::MAX
        };
    }
    let rate = 5 * window as u128 * 1_000_000_000 / (4 * srtt.nanos);
    if rate > u64::MAX as u128 {
        u64::MAX
    } else {
        rate as u64
    }
}

impl<C: CongestionControlOps> Recovery<C> {
    fn on_packet_sent_cc(&mut self, sent_bytes: usize, now: Instant)
        requires
            old(self)@.wf(),
            now.in_range(),
            old(self).path.bytes_in_flight + sent_bytes <= usize::MAX,
        ensures
            final(self)@ == old(self)@.with_cc_sent(sent_bytes, now),
            final(self)@.wf(),
            final(self).path.bytes_in_flight == old(self).path.bytes_in_flight + sent_bytes,
    {
        self.cc_ops.on_packet_sent(&mut self.path, sent_bytes, now);
    }

    pub fn set_pacing_rate(&mut self, rate: u64, now: Instant)
        requires
            old(self)@.wf(),
            now.in_range(),
        ensures
            final(self)@ == old(self)@.with_rate(rate, now),
            final(self)@.wf(),
    {
        self.path.pacer.update(self.path.send_quantum, rate, now);
    }

    /// When the next packet may leave.
    pub fn get_packet_send_time(&self) -> (t: Instant)
        ensures
            t == self@.path.pacer.next_time,
    {
        self.path.pacer.next_time()
    }

    /// Lets the pacer take note of a packet.
    ///
    /// The packet counts with its size if pacing is enabled, if it belongs to
    /// the application and if the initial window has been sent. Otherwise it
    /// counts as a packet of size zero.
    fn schedule_next_packet(&mut self, epoch: Epoch, now: Instant, packet_size: usize)
        requires
            old(self)@.wf(),
            now.in_range(),
        ensures
            final(self)@ == old(self)@.with_paced(packet_size, epoch, now),
            final(self)@.wf(),
    {
        let is_app = match epoch {
            Epoch::Application => true,
            _ => false,
        };
        let in_initcwnd = self.bytes_sent < self.path.max_datagram_size
            * INITIAL_WINDOW_PACKETS;
        let sent_bytes = if !self.path.pacer.enabled() || !is_app || in_initcwnd {
            0
        } else {
            packet_size
        };
        self.path.pacer.send(sent_bytes, now);
    }

    /// Counts a packet that is being sent.
    fn count_sent(&mut self, pkt_num: u64, ack_eliciting: bool, epoch: Epoch)
        requires
            old(self)@.wf(),
            old(self).outstanding_non_ack_eliciting < usize::MAX,
        ensures
            final(self)@ == old(self)@.with_sent_counted(pkt_num, ack_eliciting, epoch),
            final(self)@.wf(),
    {
        if ack_eliciting {
            self.outstanding_non_ack_eliciting = 0;
        } else {
            self.outstanding_non_ack_eliciting = self.outstanding_non_ack_eliciting + 1;
        }
        let e = epoch.index();
        if self.spaces[e].largest_sent_pkt < pkt_num {
            self.spaces[e].largest_sent_pkt = pkt_num;
        }
        assert(self@ =~= old(self)@.with_sent_counted(pkt_num, ack_eliciting, epoch));
    }

    /// Counts one more packet of a space in flight.
    fn count_in_flight(&mut self, ack_eliciting: bool, epoch: Epoch, now: Instant)
        requires
            old(self)@.wf(),
            now.in_range(),
            old(self)@.space(epoch).in_flight_count < usize::MAX,
        ensures
            final(self)@ == old(self)@.with_one_in_flight(ack_eliciting, epoch, now),
            final(self)@.wf(),
    {
        let e = epoch.index();
        if ack_eliciting {
            self.spaces[e].time_of_last_sent_ack_eliciting_pkt = Some(now);
        }
        self.spaces[e].in_flight_count = self.spaces[e].in_flight_count + 1;
        assert(self@ =~= old(self)@.with_one_in_flight(ack_eliciting, epoch, now));
    }

    /// Puts a packet in flight.
    fn launch(
        &mut self,
        sent_bytes: usize,
        ack_eliciting: bool,
        epoch: Epoch,
        handshake_status: HandshakeStatus,
        now: Instant,
    )
        requires
            old(self)@.wf(),
            now.in_range(),
            old(self)@.space(epoch).in_flight_count < usize::MAX,
            old(self).path.bytes_in_flight + sent_bytes <= usize::MAX,
        ensures
            final(self)@ == old(self)@.with_in_flight(
                sent_bytes,
                ack_eliciting,
                epoch,
                handshake_status,
                now,
            ),
            final(self)@.wf(),
            final(self).path.bytes_in_flight == old(self).path.bytes_in_flight + sent_bytes,
    {
        self.count_in_flight(ack_eliciting, epoch, now);
        self.update_app_limited(
            self.path.bytes_in_flight + sent_bytes < self.path.congestion_window,
        );
        self.on_packet_sent_cc(sent_bytes, now);
        self.path.prr.on_packet_sent(sent_bytes);
        self.set_loss_detection_timer(handshake_status, now);
    }

    /// Sets the pacing rate from the window, unless the algorithm does.
    fn pace_window(&mut self, now: Instant)
        requires
            old(self)@.wf(),
            now.in_range(),
        ensures
            final(self)@ == old(self)@.with_pacing_rate(now),
            final(self)@.wf(),
    {
        if !self.cc_ops.has_custom_pacing() {
            if let Some(srtt) = self.path.smoothed_rtt {
                let rate = window_rate(self.path.congestion_window, srtt);
                self.set_pacing_rate(rate, now);
            }
        }
    }

    /// Lists a packet among those that were sent.
    #[verifier::rlimit(40)]
    fn list_sent(&mut self, mut pkt: Sent, epoch: Epoch)
        requires
            old(self)@.wf(),
            pkt@.wf(),
            old(self)@.has_list_room(pkt.size),
        ensures
            final(self)@ == old(self)@.with_listed(pkt@, epoch),
            final(self)@.wf(),
    {
        let ghost before = self@;
        let ghost sent = pkt@;
        let size = pkt.size;
        let id = pkt.sidecar_id;
        pkt.time_sent = self.get_packet_send_time();
        // bytes_in_flight is already updated. Use previous value.
        let prior_in_flight = self.path.bytes_in_flight.wrapping_sub(size);
        self.path.delivery_rate.on_packet_sent(&mut pkt, prior_in_flight);
        if self.sidecar.enabled {
            self.sidecar.log.push(id);
        }
        let ghost listed = pkt@;
        let e = epoch.index();
        self.spaces[e].sent.push(pkt);
        self.bytes_sent = self.bytes_sent + size;
        proof {
            assert(views(self.spaces@[e as int].sent@) =~= before.space(epoch).sent.push(listed));
            assert(self@ =~= before.with_listed(sent, epoch));
            lemma_listed(before, sent, epoch);
        }
    }

    /// Counts a packet and puts it in flight, if it is one that is.
    fn depart(
        &mut self,
        pkt: &Sent,
        epoch: Epoch,
        handshake_status: HandshakeStatus,
        now: Instant,
    )
        requires
            old(self)@.wf(),
            old(self)@.has_room(pkt.size),
            now.in_range(),
        ensures
            final(self)@ == old(self)@.with_departed(pkt@, epoch, handshake_status, now),
            final(self)@.wf(),
            final(self)@.has_list_room(pkt.size),
    {
        let ghost before = self@;
        self.count_sent(pkt.pkt_num, pkt.ack_eliciting, epoch);
        assert(self@.same_list(before));
        if pkt.in_flight {
            self.launch(pkt.size, pkt.ack_eliciting, epoch, handshake_status, now);
        }
        assert(self@.same_list(before));
        // HyStart++: Start of the round in a slow start.
        let is_app = match epoch {
            Epoch::Application => true,
            _ => false,
        };
        if self.path.hystart.enabled() && is_app && self.path.congestion_window
            < self.path.ssthresh {
            self.path.hystart.start_round(pkt.pkt_num);
        }
    }

    /// Notes that a packet is sent.
    pub fn on_packet_sent(
        &mut self,
        pkt: Sent,
        epoch: Epoch,
        handshake_status: HandshakeStatus,
        now: Instant,
    )
        requires
            old(self)@.wf(),
            pkt@.wf(),
            old(self)@.has_room(pkt.size),
            now.in_range(),
        ensures
            final(self)@ == old(self)@.after_sent(pkt@, epoch, handshake_status, now),
            final(self)@.wf(),
    {
        self.depart(&pkt, epoch, handshake_status, now);
        let ghost departed = self@;
        // Pacing: Set the pacing rate if CC doesn't do its own.
        self.pace_window(now);
        self.schedule_next_packet(epoch, now, pkt.size);
        assert(self@.same_list(departed));
        self.list_sent(pkt, epoch);
    }

    pub fn update_app_limited(&mut self, v: bool)
        requires
            old(self)@.wf(),
        ensures
            final(self)@ == old(self)@.with_app_limited(v),
            final(self)@.wf(),
    {
        self.path.app_limited = v;
    }
}

/// Listing a packet keeps the state consistent.
proof fn lemma_listed<C: CongestionControlOps>(
    m: RecoveryView<C>,
    pkt: SentView,
    e: Epoch,
)
    requires
        m.wf(),
        pkt.wf(),
        m.has_list_room(pkt.size),
    ensures
        m.with_listed(pkt, e).wf(),
{
    let w = m.with_listed(pkt, e);
    let timed = SentView { time_sent: m.path.pacer.next_time, ..pkt };
    let rate = m.path.delivery_rate.after_sent(
        timed,
        m.path.bytes_in_flight.wrapping_sub(pkt.size),
    );
    let p = rate.stamped(timed);
    lemma_send_tally(m.space(e), w.space(e), p);
    lemma_tally_bound(m.spaces[0]);
    lemma_tally_bound(m.spaces[1]);
    lemma_tally_bound(m.spaces[2]);
}

} // verus!
