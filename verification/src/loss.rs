//! Declaring packets lost, probing for them and forgetting them.
use vstd::prelude::*;

use crate::frame::Frame;
use crate::lists::bytes;
use crate::lists::count;
use crate::lists::first_index;
use crate::lists::frames_in;
use crate::lists::lemma_bytes_le;
use crate::lists::lemma_bytes_next;
use crate::lists::lemma_bytes_skip;
use crate::lists::lemma_count_bound;
use crate::lists::lemma_first_index;
use crate::lists::lemma_frames_push;
use crate::lists::lemma_pick_next;
use crate::lists::less;
use crate::lists::pick;
use crate::sent::SentView;
use crate::space::all_wf;
use crate::space::views;
use crate::space::PacketSpace;
use crate::space::SpaceView;
use crate::time::Duration;
use crate::time::Instant;

verus! {

/// A packet that was declared lost.
#[derive(Clone, Copy, Debug, PartialEq, Eq, Structural)]
pub struct LostPacket {
    pub pkt_num: u64,
    pub time_sent: Instant,
}

/// What was declared lost.
#[derive(Clone, Copy, Debug, PartialEq, Eq, Structural)]
pub struct LossOutcome {
    pub lost_packets: usize,
    /// The bytes of those that were in flight.
    pub lost_bytes: usize,
    /// The last of those that were in flight.
    pub largest_lost_pkt: Option<LostPacket>,
}

/// The positions of the packets that have not been declared lost.
pub open spec fn unlost(s: Seq<SentView>) -> spec_fn(int) -> bool {
    |i: int| s[i].time_lost is None
}

/// The positions of the packets that have not been acknowledged.
pub open spec fn unacked(s: Seq<SentView>) -> spec_fn(int) -> bool {
    |i: int| s[i].time_acked is None
}

/// How many packets of the list have not been declared lost.
#[verifier::opaque]
pub open spec fn unlost_in(s: Seq<SentView>) -> nat {
    count(s.len() as int, unlost(s))
}

/// The bytes of those packets.
#[verifier::opaque]
pub open spec fn unlost_bytes_in(s: Seq<SentView>) -> nat {
    bytes(s, unlost(s))
}

/// How many packets of the list have not been acknowledged.
#[verifier::opaque]
pub open spec fn unacked_in(s: Seq<SentView>) -> nat {
    count(s.len() as int, unacked(s))
}

/// The packet was sent long enough before the current time or before the
/// largest acknowledged packet.
pub open spec fn deemed_lost(
    p: SentView,
    largest_acked: u64,
    now: Instant,
    delay: Duration,
    pkt_thresh: u64,
) -> bool {
    p.time_sent.nanos + delay.nanos <= now.nanos || largest_acked - p.pkt_num >= pkt_thresh
}

/// The search for lost packets ends at a packet that follows the largest
/// acknowledged one, and at the first outstanding packet that is not lost.
pub open spec fn search_ends(
    s: Seq<SentView>,
    largest_acked: u64,
    now: Instant,
    delay: Duration,
    pkt_thresh: u64,
) -> spec_fn(int) -> bool {
    |i: int|
        s[i].pkt_num > largest_acked || (s[i].outstanding() && !deemed_lost(
            s[i],
            largest_acked,
            now,
            delay,
            pkt_thresh,
        ))
}

/// The positions of the outstanding packets among the first `n`.
pub open spec fn outstanding_before(s: Seq<SentView>, n: int) -> spec_fn(int) -> bool {
    |i: int| i < n && s[i].outstanding()
}

/// Those of them that are in flight.
pub open spec fn in_flight_before(s: Seq<SentView>, n: int) -> spec_fn(int) -> bool {
    |i: int| i < n && s[i].outstanding() && s[i].in_flight
}

/// The packet once it is declared lost: its frames are to be sent again.
pub open spec fn with_loss(p: SentView, now: Instant) -> SentView {
    SentView { time_lost: Some(now), frames: Seq::empty(), ..p }
}

/// The last packet of the list, as a lost one.
pub open spec fn last_lost(s: Seq<SentView>) -> Option<LostPacket> {
    if s.len() > 0 {
        Some(LostPacket { pkt_num: s.last().pkt_num, time_sent: s.last().time_sent })
    } else {
        None
    }
}

/// The packet must still be remembered: it is outstanding, or it was declared
/// lost less than one RTT ago.
pub open spec fn remembered(s: Seq<SentView>, rtt: Duration, now: Instant) -> spec_fn(
    int,
) -> bool {
    |i: int|
        (s[i].time_lost matches Some(t) && t.nanos + rtt.nanos > now.nanos)
            || s[i].outstanding()
}

/// The positions of the outstanding packets that carry data.
pub open spec fn probes(s: Seq<SentView>) -> spec_fn(int) -> bool {
    |i: int| s[i].has_data && s[i].outstanding()
}

/// The positions of the outstanding packets in flight.
pub open spec fn flying(s: Seq<SentView>) -> spec_fn(int) -> bool {
    |i: int| s[i].in_flight && s[i].outstanding()
}

impl SpaceView {
    /// Where the search for lost packets ends.
    pub open spec fn search_end(self, now: Instant, delay: Duration, pkt_thresh: u64) -> int {
        first_index(
            0,
            self.sent.len() as int,
            search_ends(self.sent, self.largest_acked_pkt, now, delay, pkt_thresh),
        )
    }

    /// The space once the outstanding packets among the first `n` are lost.
    pub open spec fn with_first_lost(self, n: int, now: Instant) -> SpaceView {
        SpaceView {
            sent: Seq::new(
                self.sent.len(),
                |i: int|
                    if i < n && self.sent[i].outstanding() {
                        with_loss(self.sent[i], now)
                    } else {
                        self.sent[i]
                    },
            ),
            lost: self.lost + frames_in(
                pick(self.sent.take(n), outstanding_before(self.sent, n)),
            ),
            in_flight_count: less(
                self.in_flight_count,
                count(n, in_flight_before(self.sent, n)) as int,
            ),
            ..self
        }
    }

    /// The space once packets have been declared lost. If the search ended at
    /// an outstanding packet, that one is next.
    pub open spec fn after_loss(self, now: Instant, delay: Duration, pkt_thresh: u64) -> SpaceView {
        let n = self.search_end(now, delay, pkt_thresh);
        SpaceView {
            loss_time: if n < self.sent.len() && self.sent[n].pkt_num
                <= self.largest_acked_pkt {
                Some(Instant::at(self.sent[n].time_sent.nanos + delay.nanos))
            } else {
                None
            },
            ..self.with_first_lost(n, now)
        }
    }

    pub open spec fn loss_outcome(
        self,
        now: Instant,
        delay: Duration,
        pkt_thresh: u64,
    ) -> LossOutcome {
        let n = self.search_end(now, delay, pkt_thresh);
        LossOutcome {
            lost_packets: count(n, outstanding_before(self.sent, n)) as usize,
            lost_bytes: bytes(self.sent.take(n), in_flight_before(self.sent, n)) as usize,
            largest_lost_pkt: last_lost(
                pick(self.sent.take(n), in_flight_before(self.sent, n)),
            ),
        }
    }

    /// The space without the packets before the first one that must be
    /// remembered.
    pub open spec fn drained(self, rtt: Duration, now: Instant) -> SpaceView {
        let n = first_index(0, self.sent.len() as int, remembered(self.sent, rtt, now));
        SpaceView { sent: self.sent.skip(n), ..self }
    }

    /// The frames of the `n` oldest outstanding packets with data, or of all
    /// of them if there are fewer.
    pub open spec fn probe_frames(self, n: int) -> Seq<Frame> {
        let candidates = pick(self.sent, probes(self.sent));
        frames_in(
            candidates.take(
                if n <= candidates.len() {
                    n
                } else {
                    candidates.len() as int
                },
            ),
        )
    }

    /// The bytes of the outstanding packets in flight.
    pub open spec fn flying_bytes(self) -> nat {
        bytes(self.sent, flying(self.sent))
    }

    /// The space once its keys are gone. Only the largest packet numbers are
    /// kept.
    pub open spec fn discarded(self) -> SpaceView {
        SpaceView {
            sent: Seq::empty(),
            lost: Seq::empty(),
            acked: Seq::empty(),
            time_of_last_sent_ack_eliciting_pkt: None,
            loss_time: None,
            loss_probes: 0,
            in_flight_count: 0,
            ..self
        }
    }
}

impl PacketSpace {
    /// Declares packets lost, without removing them, and sets the time at
    /// which the next one will be.
    pub fn mark_lost(&mut self, now: Instant, delay: Duration, pkt_thresh: u64) -> (o: LossOutcome)
        requires
            old(self)@.wf(),
            now.in_range(),
            delay.nanos <= 0x8000_0000_0000_0000_0000_0000,
            unlost_bytes_in(old(self)@.sent) <= usize::MAX,
        ensures
            final(self)@ == old(self)@.after_loss(now, delay, pkt_thresh),
            o == old(self)@.loss_outcome(now, delay, pkt_thresh),
    {
        let ghost v = self@;
        let ghost s = self@.sent;
        let largest_acked = self.largest_acked_pkt;
        let ghost stop = search_ends(s, largest_acked, now, delay, pkt_thresh);
        let ghost end = v.search_end(now, delay, pkt_thresh);
        let ghost gone = outstanding_before(s, end);
        let ghost flew = in_flight_before(s, end);
        let len = self.sent.len();
        let mut o = LossOutcome { lost_packets: 0, lost_bytes: 0, largest_lost_pkt: None };
        self.loss_time = None;
        let mut i: usize = 0;
        proof {
            reveal(unlost_bytes_in);
            lemma_first_index(0, len as int, stop);
            assert(s.take(0) =~= Seq::<SentView>::empty());
            assert(v.lost + Seq::<Frame>::empty() =~= v.lost);
            assert(views(self.sent@) =~= s);
        }
        while i < len
            invariant_except_break
                self@ == (SpaceView {
                    sent: self@.sent,
                    lost: self@.lost,
                    in_flight_count: self@.in_flight_count,
                    loss_time: None,
                    ..v
                }),
            invariant
                i <= end <= len,
                len == s.len(),
                len == self.sent@.len(),
                s == v.sent,
                v == old(self)@,
                largest_acked == v.largest_acked_pkt,
                stop == search_ends(s, largest_acked, now, delay, pkt_thresh),
                end == first_index(0, len as int, stop),
                end < len ==> stop(end),
                forall|j: int| 0 <= j < end ==> !(#[trigger] stop(j)),
                gone == outstanding_before(s, end),
                flew == in_flight_before(s, end),
                all_wf(s),
                now.in_range(),
                delay.nanos <= 0x8000_0000_0000_0000_0000_0000,
                bytes(s, unlost(s)) <= usize::MAX,
                forall|j: int|
                    0 <= j < len ==> (#[trigger] self.sent@[j])@ == if j < i
                        && s[j].outstanding() {
                        with_loss(s[j], now)
                    } else {
                        s[j]
                    },
                self.lost@ == v.lost + frames_in(pick(s.take(i as int), gone)),
                self.in_flight_count == less(
                    v.in_flight_count,
                    count(i as int, flew) as int,
                ),
                o.lost_packets == count(i as int, gone),
                o.lost_bytes == bytes(s.take(i as int), flew),
                o.largest_lost_pkt == last_lost(pick(s.take(i as int), flew)),
            ensures
                i == end,
                self@ == (SpaceView {
                    loss_time: self@.loss_time,
                    ..v.with_first_lost(end, now)
                }),
                self@.loss_time == v.after_loss(now, delay, pkt_thresh).loss_time,
                o == v.loss_outcome(now, delay, pkt_thresh),
            decreases len - i,
        {
            let ghost p = s[i as int];
            let ghost picked = pick(s.take(i as int), gone);
            proof {
                assert(self.sent@[i as int]@ == p);
                assert(p.wf());
                assert(i < end ==> !stop(i as int));
                lemma_pick_next(s, gone, i as int);
                lemma_pick_next(s, flew, i as int);
                lemma_bytes_next(s, flew, i as int);
                lemma_frames_push(picked, p);
            }
            // Skip packets that follow the largest acked packet.
            if self.sent[i].pkt_num > largest_acked {
                assert(stop(i as int));
                proof {
                    lemma_count_bound(end, gone);
                    assert(self@ =~= (SpaceView {
                        loss_time: self@.loss_time,
                        ..v.with_first_lost(end, now)
                    }));
                }
                break;
            }
            if self.sent[i].time_acked.is_none() && self.sent[i].time_lost.is_none() {
                if self.sent[i].time_sent.nanos + delay.nanos as i128 <= now.nanos
                    || largest_acked - self.sent[i].pkt_num >= pkt_thresh {
                    assert(!stop(i as int));
                    assert(i < end);
                    let mut frames = self.sent[i].frames.take();
                    self.lost.append(&mut frames);
                    self.sent[i].time_lost = Some(now);
                    if self.sent[i].in_flight {
                        proof {
                            lemma_bytes_bound(s, flew, i as int);
                        }
                        o.lost_bytes = o.lost_bytes + self.sent[i].size;
                        o.largest_lost_pkt = Some(
                            LostPacket {
                                pkt_num: self.sent[i].pkt_num,
                                time_sent: self.sent[i].time_sent,
                            },
                        );
                        self.in_flight_count = self.in_flight_count.saturating_sub(1);
                    }
                    proof {
                        lemma_count_bound(i as int, gone);
                    }
                    o.lost_packets = o.lost_packets + 1;
                } else {
                    assert(stop(i as int));
                    self.loss_time = Some(self.sent[i].time_sent.plus(delay));
                    proof {
                        lemma_count_bound(end, gone);
                        assert(self@ =~= (SpaceView {
                            loss_time: self@.loss_time,
                            ..v.with_first_lost(end, now)
                        }));
                    }
                    break;
                }
            }
            i = i + 1;
            proof {
                assert(self.lost@ =~= v.lost + frames_in(pick(s.take(i as int), gone)));
                if i == len {
                    lemma_count_bound(end, gone);
                    assert(self@ =~= (SpaceView {
                        loss_time: self@.loss_time,
                        ..v.with_first_lost(end, now)
                    }));
                }
            }
        }
        o
    }

    /// Removes the packets before the first one that must be remembered.
    ///
    /// Packets behind it stay, even if they were acknowledged, until the gap
    /// before them is filled.
    pub fn drain(&mut self, rtt: Duration, now: Instant)
        requires
            old(self)@.wf(),
            now.in_range(),
            rtt.in_range(),
        ensures
            final(self)@ == old(self)@.drained(rtt, now),
    {
        let ghost s = self@.sent;
        let ghost keep = remembered(s, rtt, now);
        let len = self.sent.len();
        let mut i: usize = 0;
        while i < len
            invariant
                i <= len,
                len == s.len(),
                len == self.sent@.len(),
                s == views(self.sent@),
                all_wf(s),
                rtt.in_range(),
                keep == remembered(s, rtt, now),
                first_index(0, len as int, keep) == first_index(i as int, len as int, keep),
                self@ == old(self)@,
            ensures
                i <= len,
                i == first_index(0, len as int, keep),
                self@ == old(self)@,
            decreases len - i,
        {
            assert(s[i as int] == self.sent@[i as int]@);
            assert(s[i as int].wf());
            if let Some(time_lost) = self.sent[i].time_lost {
                if time_lost.plus(rtt).nanos > now.nanos {
                    assert(keep(i as int));
                    break;
                }
            }
            if self.sent[i].time_acked.is_none() && self.sent[i].time_lost.is_none() {
                assert(keep(i as int));
                break;
            }
            assert(!keep(i as int));
            i = i + 1;
        }
        let ghost before = self.sent@;
        self.sent = self.sent.split_off(i);
        assert(views(self.sent@) =~= s.skip(i as int));
    }

    /// Schedules the frames of the `n` oldest outstanding packets with data to
    /// be sent again, without declaring the packets lost.
    pub fn probe(&mut self, n: usize)
        ensures
            final(self)@ == (SpaceView {
                lost: old(self)@.lost + old(self)@.probe_frames(n as int),
                ..old(self)@
            }),
    {
        let ghost v = self@;
        let ghost s = self@.sent;
        let ghost keep = probes(s);
        let len = self.sent.len();
        let mut taken: usize = 0;
        let mut i: usize = 0;
        proof {
            assert(s.take(0) =~= Seq::<SentView>::empty());
            assert(v.lost + Seq::<Frame>::empty() =~= v.lost);
        }
        while i < len && taken < n
            invariant
                i <= len,
                taken <= n,
                taken <= i,
                len == s.len(),
                len == self.sent@.len(),
                s == v.sent,
                s == views(self.sent@),
                v == old(self)@,
                keep == probes(s),
                taken == pick(s.take(i as int), keep).len(),
                self@ == (SpaceView { lost: self@.lost, ..v }),
                self.lost@ == v.lost + frames_in(pick(s.take(i as int), keep)),
            decreases len - i,
        {
            proof {
                assert(s[i as int] == self.sent@[i as int]@);
                lemma_pick_next(s, keep, i as int);
                lemma_frames_push(pick(s.take(i as int), keep), s[i as int]);
            }
            if self.sent[i].has_data && self.sent[i].time_acked.is_none()
                && self.sent[i].time_lost.is_none() {
                let mut frames = self.sent[i].frames.to_vec();
                self.lost.append(&mut frames);
                taken = taken + 1;
            }
            i = i + 1;
            assert(self.lost@ =~= v.lost + frames_in(pick(s.take(i as int), keep)));
        }
        proof {
            let some = pick(s.take(i as int), keep);
            let all = pick(s, keep);
            lemma_pick_prefix(s, keep, i as int);
            if i == len {
                assert(s.take(i as int) =~= s);
                assert(all.take(all.len() as int) =~= all);
            } else {
                assert(all.take(n as int) =~= some);
            }
        }
    }

    /// Forgets all packets and returns the bytes of those that were still
    /// outstanding in flight.
    pub fn discard(&mut self) -> (unacked_bytes: usize)
        requires
            unlost_bytes_in(old(self)@.sent) <= usize::MAX,
        ensures
            final(self)@ == old(self)@.discarded(),
            unacked_bytes == old(self)@.flying_bytes(),
    {
        let ghost s = self@.sent;
        let ghost keep = flying(s);
        let len = self.sent.len();
        let mut unacked_bytes: usize = 0;
        let mut i: usize = 0;
        reveal(unlost_bytes_in);
        assert(s.take(0) =~= Seq::<SentView>::empty());
        while i < len
            invariant
                i <= len,
                len == s.len(),
                len == self.sent@.len(),
                s == views(self.sent@),
                self@ == old(self)@,
                keep == flying(s),
                bytes(s, unlost(s)) <= usize::MAX,
                unacked_bytes == bytes(s.take(i as int), keep),
            decreases len - i,
        {
            proof {
                assert(s[i as int] == self.sent@[i as int]@);
                lemma_bytes_next(s, keep, i as int);
            }
            if self.sent[i].in_flight && self.sent[i].time_acked.is_none()
                && self.sent[i].time_lost.is_none() {
                proof {
                    lemma_bytes_bound(s, keep, i as int);
                }
                unacked_bytes = unacked_bytes + self.sent[i].size;
            }
            i = i + 1;
        }
        assert(s.take(len as int) =~= s);
        self.sent.clear();
        self.lost.clear();
        self.acked.clear();
        self.time_of_last_sent_ack_eliciting_pkt = None;
        self.loss_time = None;
        self.loss_probes = 0;
        self.in_flight_count = 0;
        assert(self@ =~= old(self)@.discarded());
        unacked_bytes
    }
}

/// Packets that are kept and were not declared lost weigh no more, up to and
/// including position `i`, than all that were not declared lost.
proof fn lemma_bytes_bound(s: Seq<SentView>, keep: spec_fn(int) -> bool, i: int)
    requires
        0 <= i < s.len(),
        forall|j: int| 0 <= j < s.len() && #[trigger] keep(j) ==> s[j].time_lost is None,
        keep(i),
    ensures
        bytes(s.take(i), keep) + s[i].size <= bytes(s, unlost(s)),
{
    lemma_bytes_next(s, keep, i);
    assert forall|j: int| 0 <= j < s.take(i + 1).len() && #[trigger] keep(j) implies unlost(s)(
        j,
    ) by {
        assert(s[j].time_lost is None);
    }
    lemma_bytes_le(s.take(i + 1), keep, unlost(s));
    lemma_bytes_skip(s, unlost(s), i + 1, s.len() as int);
    assert(s.take(s.len() as int) =~= s);
}

/// A list that is picked from a prefix is a prefix of what is picked from all.
proof fn lemma_pick_prefix(s: Seq<SentView>, keep: spec_fn(int) -> bool, n: int)
    requires
        0 <= n <= s.len(),
    ensures
        pick(s.take(n), keep).len() <= pick(s, keep).len(),
        pick(s, keep).take(pick(s.take(n), keep).len() as int) == pick(s.take(n), keep),
    decreases s.len() - n,
{
    let some = pick(s.take(n), keep);
    if n == s.len() {
        assert(s.take(n) =~= s);
        assert(some.take(some.len() as int) =~= some);
    } else {
        lemma_pick_next(s, keep, n);
        lemma_pick_prefix(s, keep, n + 1);
        let more = pick(s.take(n + 1), keep);
        let all = pick(s, keep);
        assert(all.take(some.len() as int) =~= more.take(some.len() as int));
        assert(more.take(some.len() as int) =~= some);
    }
}

} // verus!
