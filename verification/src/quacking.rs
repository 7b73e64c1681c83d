//! What happens when a quack arrives.
//!
//! The sender's own power sum quack is kept by the caller: it puts in the
//! identifiers that it is told to and takes out those that are settled. The
//! state of the path knows how many identifiers that quack counts.
use std::collections::HashSet;
use std::collections::VecDeque;
use vstd::prelude::*;

use crate::congestion::CongestionControlOps;
use crate::congestion::QuackMetadata;
use crate::detection::lemma_records_wf;
use crate::detection::records_wf;
use crate::error::Error;
use crate::lists::count;
use crate::lists::first_index;
use crate::lists::frames_in;
use crate::lists::lemma_count_skip;
use crate::lists::lemma_count_some;
use crate::lists::lemma_first_index;
use crate::lists::lemma_pick_len;
use crate::lists::pick;
use crate::lists::records;
use crate::loss::LossOutcome;
use crate::model::QuackAction;
use crate::model::RecoveryView;
use crate::model::SidecarView;
use crate::packet::Epoch;
use crate::quack::at_id;
use crate::quack::decoded_strawman_b;
use crate::quack::lemma_power_sum_bounds;
use crate::quack::DecodedQuack;
use crate::quack::Quack;
use crate::quack_laws::lemma_decoding_keeps_cover;
use crate::recovery::Recovery;
use crate::sent::Acked;
use crate::sidecar::is_named;
use crate::sidecar::named;
use crate::sidecar::named_in_flight;
use crate::tally::lemma_echo_tally;
use crate::tally::lemma_miss_tally;
use crate::time::Duration;
use crate::time::Instant;

verus! {

/// The answer to a received power sum quack.
pub struct QuackStep {
    /// The identifiers to put into the sender's quack.
    pub inserted: Vec<u32>,
    pub action: QuackAction,
}

/// The result of a decoded power sum quack.
pub struct QuackResult {
    pub lost_packets: usize,
    pub lost_bytes: usize,
    /// The identifiers to take out of the sender's quack.
    pub removed: Vec<u32>,
}

impl<C: CongestionControlOps> Recovery<C> {
    /// Marks the packets that the proxy has received, if they count as
    /// acknowledged, and returns their records.
    fn sidecar_mark_acked_packets(&mut self, acked_ids: HashSet<u32>, now: Instant) -> (r: Vec<
        Acked,
    >)
        requires
            old(self)@.wf(),
            now.in_range(),
        ensures
            final(self)@ == old(self)@.with_echo(acked_ids@, now),
            r@ == records(old(self)@.echoed(acked_ids@), now),
            final(self)@.wf(),
            records_wf(r@),
    {
        if !self.sidecar.ack_reduction {
            return Vec::new();
        }
        let ghost before = self@;
        let ghost space = before.space(Epoch::Application);
        let ghost ids = acked_ids@;
        proof {
            lemma_echo_tally(space, ids, now);
            lemma_records_wf(space.sent, named(space.sent, ids), now);
        }
        let (newly_acked, last_sent) = self.spaces[2].mark_echoed(acked_ids, now);
        assert(self@ =~= before.with_space(Epoch::Application, space.after_echo(ids, now)));
        if newly_acked.len() > 0 {
            assert(newly_acked@[newly_acked@.len() - 1].wf());
            let latest_rtt = now.saturating_duration_since(last_sent);
            self.update_rtt(latest_rtt, Duration { nanos: 0 }, now);
        }
        newly_acked
    }

    /// Declares the packets that are missing at the proxy lost.
    fn sidecar_mark_lost_packets(&mut self, missing_ids: HashSet<u32>, now: Instant) -> (o:
        LossOutcome)
        requires
            old(self)@.wf(),
            now.in_range(),
        ensures
            final(self)@ == old(self)@.with_miss_marked(missing_ids@, now),
            o == old(self)@.space(Epoch::Application).miss_outcome(missing_ids@),
            final(self)@.wf(),
    {
        let ghost before = self@;
        let ghost ids = missing_ids@;
        proof {
            lemma_miss_tally(before.space(Epoch::Application), ids, now);
        }
        let len = self.spaces[2].sent.len();
        let o = self.spaces[2].mark_missing(missing_ids, now);
        self.bytes_lost = self.bytes_lost + o.lost_bytes as u64;
        self.lost_count = self.lost_count + o.lost_packets;
        self.path.bytes_in_flight = self.path.bytes_in_flight.saturating_sub(o.lost_bytes);
        assert(self@ =~= before.with_miss_marked(ids, now));
        o
    }

    fn sidecar_on_packets_lost(&mut self, now: Instant, o: LossOutcome)
        requires
            old(self)@.wf(),
            now.in_range(),
        ensures
            final(self)@ == old(self)@.with_sidecar_loss(o, now),
            final(self)@.wf(),
    {
        if let Some(pkt) = o.largest_lost_pkt {
            let metadata = if self.sidecar.ack_reduction {
                QuackMetadata { near_subpath_numer: 40, near_subpath_denom: 41 }
            } else {
                QuackMetadata { near_subpath_numer: 2, near_subpath_denom: 152 }
            };
            self.congestion_event(
                o.lost_bytes,
                pkt.time_sent,
                Epoch::Application,
                now,
                Some(metadata),
            );
        }
    }

    fn sidecar_on_packets_acked(&mut self, now: Instant, acked: &mut Vec<Acked>)
        requires
            old(self)@.wf(),
            now.in_range(),
            records_wf(old(acked)@),
        ensures
            final(self)@ == old(self)@.with_sidecar_acked(old(acked)@, now),
            final(self)@.wf(),
    {
        if acked.len() > 0 {
            self.on_packets_acked(acked, Epoch::Application, now);
        }
    }

    /// Applies a decoded quack to the packets that were sent. There is no
    /// result if it was to acknowledge packets and does not.
    fn apply_quack(
        &mut self,
        acked_ids: HashSet<u32>,
        missing_ids: HashSet<u32>,
        now: Instant,
    ) -> (r: Option<(usize, usize)>)
        requires
            old(self)@.wf(),
            now.in_range(),
        ensures
            old(self)@.quack_void(acked_ids@) ==> r is None && final(self)@ == old(self)@,
            !old(self)@.quack_void(acked_ids@) ==> r == Some(
                old(self)@.quack_losses(acked_ids@, missing_ids@, now),
            ) && final(self)@ == old(self)@.with_quack_applied(acked_ids@, missing_ids@, now),
            final(self)@.wf(),
    {
        let ghost ids = acked_ids@;
        // Detect and mark acked packets, without removing them from the sent
        // packets list.
        let mut newly_acked = self.sidecar_mark_acked_packets(acked_ids, now);
        if self.sidecar.ack_reduction && newly_acked.len() == 0 {
            proof {
                lemma_void_echo(old(self)@, ids, now);
            }
            return None;
        }
        // Detect and mark lost packets, without removing them from the sent
        // packets list.
        let o = self.sidecar_mark_lost_packets(missing_ids, now);
        // Update the congestion window. Notably, we do not drain packets.
        self.sidecar_on_packets_lost(now, o);
        self.sidecar_on_packets_acked(now, &mut newly_acked);
        Some((o.lost_packets, o.lost_bytes))
    }

    /// Covers the log up to the last value of a received quack and returns the
    /// identifiers that go into the sender's quack.
    ///
    /// With reordering the last value may have been covered before; everything
    /// is covered then.
    fn cover_log(&mut self, last_value: u32) -> (inserted: Vec<u32>)
        requires
            old(self)@.wf(),
        ensures
            final(self)@ == (RecoveryView {
                sidecar: old(self)@.sidecar.with_covered(last_value),
                ..old(self)@
            }),
            inserted@ == old(self)@.sidecar.inserted(last_value),
            final(self)@.wf(),
    {
        let ghost before = self@;
        let ghost log = self.sidecar.log@;
        let ghost from = self.sidecar.next_log_index as int;
        let ghost found = at_id(log, last_value);
        let len = self.sidecar.log.len();
        let mut inserted: Vec<u32> = Vec::new();
        let mut i: usize = self.sidecar.next_log_index;
        proof {
            lemma_first_index(from, len as int, found);
            assert(inserted@ =~= log.subrange(from, from));
        }
        while i < len
            invariant_except_break
                first_index(from, len as int, found) == first_index(i as int, len as int, found),
            invariant
                from <= i <= len,
                len == log.len(),
                log == before.sidecar.log,
                log == self.sidecar.log@,
                from == before.sidecar.next_log_index,
                found == at_id(log, last_value),
                inserted@ == log.subrange(from, i as int),
                self@ == (RecoveryView {
                    sidecar: SidecarView {
                        quack_count: self.sidecar.quack_count,
                        ..before.sidecar
                    },
                    ..before
                }),
                self.sidecar.quack_count == (before.sidecar.quack_count + (i - from))
                    % 0x1_0000_0000,
            ensures
                i == before.sidecar.covered(last_value),
            decreases len - i,
        {
            let sidecar_id = self.sidecar.log[i];
            self.sidecar.quack_count = self.sidecar.quack_count.wrapping_add(1);
            inserted.push(sidecar_id);
            i = i + 1;
            assert(inserted@ =~= log.subrange(from, i as int));
            if sidecar_id == last_value {
                assert(found(i - 1));
                break;
            }
            assert(!found(i - 1));
        }
        self.sidecar.next_log_index = i;
        inserted
    }

    /// Looks at a received power sum quack, of which the count and the last
    /// value are given, and says what to do about it.
    ///
    /// A quack that has not changed, or that counts nothing, is ignored. The
    /// exchange has to start anew if the proxy counts more than was sent, or
    /// if more is missing than can be decoded.
    pub fn on_quack_received(&mut self, count: u32, last_value: u32) -> (step: QuackStep)
        requires
            old(self)@.wf(),
        ensures
            final(self)@ == old(self)@.after_quack(count, last_value),
            step.action == old(self)@.quack_action(count, last_value),
            step.inserted@ == if step.action is Ignore {
                Seq::empty()
            } else {
                old(self)@.sidecar.inserted(last_value)
            },
            final(self)@.wf(),
    {
        // Don't process the quack if it hasn't changed since the last one we
        // received. Or if no packets have been received.
        if self.sidecar.last_decoded_quack_count == count || count == 0 {
            return QuackStep { inserted: Vec::new(), action: QuackAction::Ignore };
        }
        self.sidecar.last_decoded_quack_count = count;
        // Add up to the last packet received to the sender's quack.
        let inserted = self.cover_log(last_value);
        // Either the counts overflowed, or the proxy has not processed a reset
        // yet.
        if self.sidecar.quack_count < count {
            return QuackStep { inserted, action: QuackAction::Reset };
        }
        // We can't decode the quack if the difference in the number of packets
        // sent and received exceeds the threshold.
        let missing = self.sidecar.quack_count - count;
        if missing as usize > self.sidecar.quack_threshold {
            return QuackStep { inserted, action: QuackAction::Reset };
        }
        // We "drain" packets here without going through quack decoding.
        if missing == 0 && self.sidecar.next_log_index == self.sidecar.log.len() {
            self.sidecar.log = Vec::new();
            self.sidecar.next_log_index = 0;
            return QuackStep { inserted, action: QuackAction::Settle };
        }
        QuackStep { inserted, action: QuackAction::Decode { missing } }
    }

    /// Decides whether a reset is to be sent to the proxy, and gives the epoch
    /// to send.
    ///
    /// The threshold should be long enough that, if the host and the proxy are
    /// not in a valid state by then, the previous reset got lost.
    pub fn begin_quack_reset(&mut self, now: Instant) -> (epoch: Option<u8>)
        requires
            old(self)@.wf(),
            now.in_range(),
        ensures
            old(self)@.sidecar.reset_due(now) ==> final(self)@ == (RecoveryView {
                sidecar: old(self)@.sidecar.resetting(),
                ..old(self)@
            }) && epoch == Some(final(self)@.sidecar.quack_epoch),
            !old(self)@.sidecar.reset_due(now) ==> final(self)@ == old(self)@ && epoch is None,
            final(self)@.wf(),
    {
        if !self.sidecar.quack_reset {
            return None;
        }
        let threshold: u128 = if self.sidecar.ack_reduction {
            300_000_000
        } else {
            10_000_000
        };
        if now.saturating_duration_since(self.sidecar.last_quack_reset).nanos <= threshold {
            return None;
        }
        self.sidecar.quack_epoch = self.sidecar.quack_epoch.wrapping_add(1);
        Some(self.sidecar.quack_epoch)
    }

    /// Starts the exchange anew once a reset has been sent. The sender's quack
    /// is to be emptied.
    pub fn finish_quack_reset(&mut self, now: Instant)
        requires
            old(self)@.wf(),
            now.in_range(),
        ensures
            final(self)@ == (RecoveryView {
                sidecar: old(self)@.sidecar.restarted(now),
                ..old(self)@
            }),
            final(self)@.wf(),
    {
        self.sidecar.last_quack_reset = now;
        self.sidecar.quack_count = 0;
        self.sidecar.last_decoded_quack_count = 0;
        self.sidecar.log = Vec::new();
        self.sidecar.next_log_index = 0;
    }

    /// Forgets the settled part of the log and returns the identifiers to take
    /// out of the sender's quack.
    fn settle_log(
        &mut self,
        missing_indexes: &Vec<usize>,
        drain_index: usize,
        num_reordered: usize,
    ) -> (removed: Vec<u32>)
        requires
            old(self)@.wf(),
            drain_index + num_reordered <= old(self)@.sidecar.log.len(),
            forall|i: int|
                0 <= i < missing_indexes@.len() ==> (#[trigger] missing_indexes@[i])
                    < drain_index,
        ensures
            final(self)@ == (RecoveryView {
                sidecar: old(self)@.sidecar.settled(
                    missing_indexes@,
                    drain_index as int,
                    num_reordered as int,
                ),
                ..old(self)@
            }),
            removed@ == old(self)@.ids_of(missing_indexes@),
            final(self)@.wf(),
    {
        let ghost before = self@;
        let mut removed: Vec<u32> = Vec::new();
        let len = missing_indexes.len();
        let mut i: usize = 0;
        while i < len
            invariant
                i <= len,
                len == missing_indexes@.len(),
                drain_index <= before.sidecar.log.len(),
                before.sidecar.log == self.sidecar.log@,
                forall|j: int|
                    0 <= j < missing_indexes@.len() ==> (#[trigger] missing_indexes@[j])
                        < drain_index,
                removed@ == before.ids_of(missing_indexes@.take(i as int)),
                self@ == (RecoveryView {
                    sidecar: SidecarView {
                        quack_count: self.sidecar.quack_count,
                        ..before.sidecar
                    },
                    ..before
                }),
                self.sidecar.quack_count == (before.sidecar.quack_count - i) % 0x1_0000_0000,
            decreases len - i,
        {
            let id = self.sidecar.log[missing_indexes[i]];
            self.sidecar.quack_count = self.sidecar.quack_count.wrapping_sub(1);
            removed.push(id);
            i = i + 1;
            assert(removed@ =~= before.ids_of(missing_indexes@.take(i as int)));
        }
        assert(missing_indexes@.take(len as int) =~= missing_indexes@);
        self.sidecar.log = self.sidecar.log.split_off(drain_index);
        self.sidecar.next_log_index = num_reordered;
        assert(self.sidecar.log@ =~= before.sidecar.log.skip(drain_index as int));
        removed
    }

    /// Processes a power sum quack that is to be decoded: `missing` is what
    /// the difference of the quacks counts, and `roots` says of each covered
    /// identifier of the log whether it is a root of that difference.
    pub fn on_quack_decoded(&mut self, missing: u32, roots: Vec<bool>, now: Instant) -> (r:
        QuackResult)
        requires
            old(self)@.wf(),
            now.in_range(),
            roots@.len() == old(self)@.sidecar.next_log_index,
        ensures
            final(self)@ == old(self)@.after_decoded(missing, roots@, now),
            ({
                let d = old(self)@.decoded_quack(missing, roots@);
                if old(self)@.quack_void(d.acked_ids) {
                    r.lost_packets == 0 && r.lost_bytes == 0 && r.removed@.len() == 0
                } else {
                    (r.lost_packets, r.lost_bytes) == old(self)@.quack_losses(
                        d.acked_ids,
                        d.missing_ids,
                        now,
                    ) && r.removed@ == old(self)@.ids_of(d.missing_indexes)
                }
            }),
            old(self)@.sidecar.log.len() - old(self)@.sidecar.next_log_index
                == final(self)@.sidecar.log.len() - final(self)@.sidecar.next_log_index,
            final(self)@.wf(),
    {
        proof {
            lemma_decoding_keeps_cover(self@, missing, roots@, now);
        }
        let n = self.sidecar.next_log_index;
        let ghost covered = self.sidecar.log@.take(n as int);
        let ghost rs = roots@;
        // Find the missing packets that are not in the suffix.
        let mut decoded = DecodedQuack::new(Quack::PowerSum { count: missing, roots });
        let log = vstd::slice::slice_subrange(self.sidecar.log.as_slice(), 0, n);
        proof {
            assert(log@ =~= covered);
            lemma_power_sum_bounds(covered, missing, rs);
        }
        let drain_index = decoded.decode(log);
        match self.apply_quack(decoded.acked_ids, decoded.missing_ids, now) {
            None => QuackResult { lost_packets: 0, lost_bytes: 0, removed: Vec::new() },
            Some((lost_packets, lost_bytes)) => {
                // Everything we drain from the log has already been determined
                // to be quacked or lost.
                let removed = self.settle_log(
                    &decoded.missing_indexes,
                    drain_index,
                    decoded.num_reordered,
                );
                QuackResult { lost_packets, lost_bytes, removed }
            },
        }
    }

    /// Processes a quack that echoes identifiers.
    fn on_quack_received_strawman(
        &mut self,
        decoded: DecodedQuack,
        now: Instant,
        drain_index: usize,
    ) -> (r: Result<(usize, usize), Error>)
        requires
            old(self)@.wf(),
            now.in_range(),
            old(self)@.sidecar.next_log_index == 0,
            !old(self)@.quack_void(decoded.acked_ids@) ==> drain_index
                <= old(self)@.sidecar.log.len(),
        ensures
            final(self)@ == old(self)@.after_echoes(
                decoded.acked_ids@,
                decoded.missing_ids@,
                drain_index as int,
                now,
            ),
            r == Ok::<(usize, usize), Error>(
                old(self)@.echo_losses(decoded.acked_ids@, decoded.missing_ids@, now),
            ),
            final(self)@.wf(),
    {
        let ghost before = self@;
        match self.apply_quack(decoded.acked_ids, decoded.missing_ids, now) {
            None => Ok((0, 0)),
            Some(lost) => {
                // Everything we drain from the log has already been determined
                // to be quacked or lost.
                self.sidecar.log = self.sidecar.log.split_off(drain_index);
                assert(self.sidecar.log@ =~= before.sidecar.log.skip(drain_index as int));
                Ok(lost)
            },
        }
    }

    /// Processes a quack that echoes a single identifier. Such a quack is not
    /// acted on: nothing is known to have been received before it is decoded.
    pub fn on_quack_received_strawman_a(&mut self, sidecar_id: u32, now: Instant) -> (r: Result<
        (usize, usize),
        Error,
    >)
        ensures
            final(self)@ == old(self)@,
            r == Ok::<(usize, usize), Error>((0, 0)),
    {
        let mut decoded = DecodedQuack::new(Quack::StrawmanA { sidecar_id });
        if decoded.acked_ids.len() != 1 {
            return Ok((0, 0));
        }
        let drain_index = decoded.decode(self.sidecar.log.as_slice());
        self.on_quack_received_strawman(decoded, now, drain_index)
    }

    /// Processes a quack that echoes a window of identifiers, the newest at
    /// the back.
    pub fn on_quack_received_strawman_b(&mut self, window: VecDeque<u32>, now: Instant) -> (r:
        Result<(usize, usize), Error>)
        requires
            old(self)@.wf(),
            now.in_range(),
            window@.len() > 0,
            old(self)@.sidecar.next_log_index == 0,
            ({
                let d = decoded_strawman_b(old(self)@.sidecar.log, window@);
                !old(self)@.quack_void(d.acked_ids) ==> d.drain_index
                    <= old(self)@.sidecar.log.len()
            }),
        ensures
            final(self)@ == old(self)@.after_window(window@, now),
            r == Ok::<(usize, usize), Error>(
                ({
                    let d = decoded_strawman_b(old(self)@.sidecar.log, window@);
                    old(self)@.echo_losses(d.acked_ids, d.missing_ids, now)
                }),
            ),
            final(self)@.wf(),
    {
        let mut decoded = DecodedQuack::new(Quack::StrawmanB { window });
        let drain_index = decoded.decode(self.sidecar.log.as_slice());
        self.on_quack_received_strawman(decoded, now, drain_index)
    }
}

/// A quack that acknowledges nothing leaves the packets as they are.
proof fn lemma_void_echo<C: CongestionControlOps>(
    m: RecoveryView<C>,
    ids: Set<u32>,
    now: Instant,
)
    requires
        m.wf(),
        m.quack_void(ids),
    ensures
        m.with_echo(ids, now) == m,
{
    let v = m.space(Epoch::Application);
    let s = v.sent;
    let n = s.len() as int;
    lemma_pick_len(s, named(s, ids));
    assert forall|i: int| 0 <= i < n implies !is_named(s, ids, i) by {
        if is_named(s, ids, i) {
            lemma_count_some(n, named(s, ids), i);
        }
    }
    lemma_count_skip(named_in_flight(s, ids), 0, n);
    assert(pick(s, named(s, ids)) =~= Seq::empty());
    assert(v.acked + frames_in(Seq::empty()) =~= v.acked);
    assert(v.after_echo(ids, now) =~= v);
    assert(m.with_echo(ids, now) =~= m);
}

} // verus!
