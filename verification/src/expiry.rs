//! What happens when the loss detection timer expires, when the keys of a
//! space are dropped and when the path changes.
use vstd::prelude::*;

use crate::congestion::CongestionControlOps;
use crate::lists::bytes;
use crate::model::HandshakeStatus;
use crate::model::MAX_PTO_COUNT;
use crate::model::MAX_PTO_PROBES_COUNT;
use crate::packet::Epoch;
use crate::recovery::Recovery;
use crate::tally::lemma_tally_bound;
use crate::time::Instant;

verus! {

impl<C: CongestionControlOps> Recovery<C> {
    /// Schedules probes in a space and lets the probe timer back off.
    ///
    /// The frames of the oldest outstanding packets are sent again, but the
    /// packets are not declared lost, so there is no effect on congestion
    /// control.
    fn schedule_probes(&mut self, epoch: Epoch)
        requires
            old(self)@.wf(),
            old(self).pto_count < MAX_PTO_COUNT,
        ensures
            final(self)@ == old(self)@.with_probes(epoch),
            final(self)@.wf(),
    {
        self.pto_count = self.pto_count + 1;
        let n: usize = if self.pto_count as usize <= MAX_PTO_PROBES_COUNT {
            self.pto_count as usize
        } else {
            MAX_PTO_PROBES_COUNT
        };
        let e = epoch.index();
        self.spaces[e].loss_probes = n;
        self.spaces[e].probe(n);
        assert(self@ =~= old(self)@.with_probes(epoch));
    }

    /// Handles the expiry of the loss detection timer: declares packets lost,
    /// or schedules probes if none is due.
    ///
    /// Returns how many packets were lost and the bytes of those in flight.
    pub fn on_loss_detection_timeout(
        &mut self,
        handshake_status: HandshakeStatus,
        now: Instant,
    ) -> (r: (usize, usize))
        requires
            old(self)@.wf(),
            now.in_range(),
            old(self)@.loss_deadline().0 is None ==> old(self).pto_count < MAX_PTO_COUNT,
        ensures
            final(self)@ == old(self)@.after_timeout(handshake_status, now),
            final(self)@.wf(),
            r == old(self)@.timeout_losses(now),
    {
        let (earliest_loss_time, epoch) = self.loss_time_and_space();
        if earliest_loss_time.is_some() {
            // Time threshold loss detection.
            let lost = self.detect_lost_packets(epoch, now);
            self.set_loss_detection_timer(handshake_status, now);
            return lost;
        }
        let epoch = if self.path.bytes_in_flight > 0 {
            // Send new data if available, else retransmit old data. If neither
            // is available, send a single PING frame.
            let (_, e) = self.pto_time_and_space(handshake_status, now);
            e
        } else if handshake_status.has_handshake_keys {
            // Client sends an anti-deadlock packet: Initial is padded to earn
            // more anti-amplification credit, a Handshake packet proves address
            // ownership.
            Epoch::Handshake
        } else {
            Epoch::Initial
        };
        self.schedule_probes(epoch);
        self.set_loss_detection_timer(handshake_status, now);
        (0, 0)
    }

    /// Forgets the packets of a space whose keys have been dropped.
    pub fn on_pkt_num_space_discarded(
        &mut self,
        epoch: Epoch,
        handshake_status: HandshakeStatus,
        now: Instant,
    )
        requires
            old(self)@.wf(),
            now.in_range(),
        ensures
            final(self)@ == old(self)@.after_discard(epoch, handshake_status, now),
            final(self)@.wf(),
    {
        let ghost before = self@;
        let unacked_bytes = self.spaces[epoch.index()].discard();
        self.path.bytes_in_flight = self.path.bytes_in_flight.saturating_sub(unacked_bytes);
        assert(self@ =~= before.without_space(epoch));
        proof {
            lemma_tally_bound(self@.space(epoch));
        }
        self.set_loss_detection_timer(handshake_status, now);
    }

    /// Declares packets lost when the path changes.
    pub fn on_path_change(&mut self, epoch: Epoch, now: Instant) -> (r: (usize, usize))
        requires
            old(self)@.wf(),
            now.in_range(),
        ensures
            final(self)@ == old(self)@.after_loss(epoch, now),
            final(self)@.wf(),
            r.0 == old(self)@.loss_outcome(epoch, now).lost_packets,
            r.1 == old(self)@.loss_outcome(epoch, now).lost_bytes,
    {
        self.detect_lost_packets(epoch, now)
    }
}

} // verus!
