//! A packet number space: the packets that were sent in it and what has become
//! of them.
use vstd::prelude::*;

use crate::frame::Frame;
use crate::lists::count;
use crate::lists::frames_in;
use crate::lists::lemma_count_skip;
use crate::lists::lemma_frames_push;
use crate::lists::lemma_pick_from;
use crate::lists::lemma_pick_next;
use crate::lists::lemma_pick_skip;
use crate::lists::lemma_records_push;
use crate::lists::less;
use crate::lists::pick;
use crate::lists::records;
use crate::ranges::listed;
use crate::ranges::PktRange;
use crate::ranges::RangeSet;
use crate::sent::Acked;
use crate::sent::Sent;
use crate::sent::SentView;
use crate::time::Duration;
use crate::time::Instant;

verus! {

/// The largest packet reordering that is tolerated.
pub const MAX_PACKET_THRESHOLD: u64 = 20;

/// The time threshold, in eighths of the RTT, once a loss was spurious.
pub const RAISED_TIME_THRESHOLD: u32 = 10;

/// A packet number space.
pub struct PacketSpace {
    pub time_of_last_sent_ack_eliciting_pkt: Option<Instant>,
    /// The largest acknowledged packet number, or the largest `u64` before the
    /// first acknowledgement.
    pub largest_acked_pkt: u64,
    pub largest_sent_pkt: u64,
    /// When the next packet will be declared lost.
    pub loss_time: Option<Instant>,
    /// The packets that were sent, oldest first. They are marked in place.
    pub sent: Vec<Sent>,
    /// Frames of lost packets, to be sent again.
    pub lost: Vec<Frame>,
    /// Frames of acknowledged packets.
    pub acked: Vec<Frame>,
    /// How many probes are to be sent.
    pub loss_probes: usize,
    pub in_flight_count: usize,
}

/// What a [`PacketSpace`] says, with sequences for its lists.
#[verifier::ext_equal]
pub struct SpaceView {
    pub time_of_last_sent_ack_eliciting_pkt: Option<Instant>,
    pub largest_acked_pkt: u64,
    pub largest_sent_pkt: u64,
    pub loss_time: Option<Instant>,
    pub sent: Seq<SentView>,
    pub lost: Seq<Frame>,
    pub acked: Seq<Frame>,
    pub loss_probes: usize,
    pub in_flight_count: usize,
}

/// What the packets of a list say.
pub open spec fn views(s: Seq<Sent>) -> Seq<SentView> {
    Seq::new(s.len(), |i: int| s[i]@)
}

impl View for PacketSpace {
    type V = SpaceView;

    open spec fn view(&self) -> SpaceView {
        SpaceView {
            time_of_last_sent_ack_eliciting_pkt: self.time_of_last_sent_ack_eliciting_pkt,
            largest_acked_pkt: self.largest_acked_pkt,
            largest_sent_pkt: self.largest_sent_pkt,
            loss_time: self.loss_time,
            sent: views(self.sent@),
            lost: self.lost@,
            acked: self.acked@,
            loss_probes: self.loss_probes,
            in_flight_count: self.in_flight_count,
        }
    }
}

/// The packet numbers grow along the list.
pub open spec fn in_order(s: Seq<SentView>) -> bool {
    forall|i: int, j: int|
        0 <= i < j < s.len() ==> (#[trigger] s[i]).pkt_num < (#[trigger] s[j]).pkt_num
}

/// The times of every packet of the list are clock readings.
pub open spec fn all_wf(s: Seq<SentView>) -> bool {
    forall|i: int| 0 <= i < s.len() ==> (#[trigger] s[i]).wf()
}

/// What an ACK frame did to the packets of a space.
#[derive(Clone, Copy, Debug, PartialEq, Eq, Structural)]
pub struct AckOutcome {
    /// Some packet was acknowledged for the first time.
    pub acked: bool,
    /// Some of them was in flight and had been declared lost.
    pub undo_cwnd: bool,
    /// Some of them elicited an acknowledgement and had not been lost.
    pub has_ack_eliciting: bool,
    /// The last of them that had not been lost, or zero.
    pub largest_newly_acked_pkt_num: u64,
    /// When that packet was sent, or the current time.
    pub largest_newly_acked_sent_time: Instant,
    /// How many of them had been declared lost.
    pub spurious: usize,
    pub pkt_thresh: u64,
    pub time_thresh: u32,
}

/// The packet is acknowledged, for the first time, by one of the ranges.
pub open spec fn hit(ranges: Seq<PktRange>, p: SentView) -> bool {
    listed(ranges, p.pkt_num) && p.time_acked is None
}

/// The positions of the packets that the ranges acknowledge.
pub open spec fn hits(s: Seq<SentView>, ranges: Seq<PktRange>) -> spec_fn(int) -> bool {
    |i: int| hit(ranges, s[i])
}

/// Those that had been declared lost.
pub open spec fn spurious(s: Seq<SentView>, ranges: Seq<PktRange>) -> spec_fn(int) -> bool {
    |i: int| hit(ranges, s[i]) && s[i].time_lost is Some
}

/// Those that had been declared lost and are in flight.
pub open spec fn spurious_in_flight(s: Seq<SentView>, ranges: Seq<PktRange>) -> spec_fn(
    int,
) -> bool {
    |i: int| hit(ranges, s[i]) && s[i].time_lost is Some && s[i].in_flight
}

/// Those that had been declared lost and were sent longer than `delay` ago.
pub open spec fn late(
    s: Seq<SentView>,
    ranges: Seq<PktRange>,
    now: Instant,
    delay: Duration,
) -> spec_fn(int) -> bool {
    |i: int|
        hit(ranges, s[i]) && s[i].time_lost is Some && now.since(s[i].time_sent).nanos
            > delay.nanos
}

/// Those that had not been declared lost.
pub open spec fn regular(s: Seq<SentView>, ranges: Seq<PktRange>) -> spec_fn(int) -> bool {
    |i: int| hit(ranges, s[i]) && s[i].time_lost is None
}

/// Those that had not been declared lost and elicit an acknowledgement.
pub open spec fn eliciting(s: Seq<SentView>, ranges: Seq<PktRange>) -> spec_fn(int) -> bool {
    |i: int| hit(ranges, s[i]) && s[i].time_lost is None && s[i].ack_eliciting
}

/// Those of which neither the peer nor the proxy had told anything.
pub open spec fn fresh(s: Seq<SentView>, ranges: Seq<PktRange>) -> spec_fn(int) -> bool {
    |i: int| hit(ranges, s[i]) && s[i].time_lost is None && s[i].time_acked_sidecar is None
}

/// Those of which nothing had been told and that are in flight.
pub open spec fn fresh_in_flight(s: Seq<SentView>, ranges: Seq<PktRange>) -> spec_fn(
    int,
) -> bool {
    |i: int|
        hit(ranges, s[i]) && s[i].time_lost is None && s[i].time_acked_sidecar is None
            && s[i].in_flight
}

/// The packet once it is acknowledged. Its frames are handed on unless they
/// were before.
pub open spec fn with_ack(p: SentView, now: Instant) -> SentView {
    SentView {
        time_acked: Some(now),
        frames: if p.time_lost is None && p.time_acked_sidecar is None {
            Seq::empty()
        } else {
            p.frames
        },
        ..p
    }
}

/// The packet threshold once the given packets, in order, were lost for no
/// good reason: large enough for the oldest of them, within the limit.
pub open spec fn raised_threshold(
    pkt_thresh: u64,
    largest_acked: u64,
    spurious: Seq<SentView>,
) -> u64 {
    if spurious.len() == 0 {
        pkt_thresh
    } else {
        let distance = largest_acked - spurious[0].pkt_num + 1;
        let wanted = if distance > MAX_PACKET_THRESHOLD {
            MAX_PACKET_THRESHOLD as int
        } else {
            distance
        };
        if wanted > pkt_thresh {
            wanted as u64
        } else {
            pkt_thresh
        }
    }
}

/// What the ranges do, as far as the first `n` packets are concerned.
pub open spec fn ack_outcome(
    s: Seq<SentView>,
    n: int,
    ranges: Seq<PktRange>,
    now: Instant,
    delay: Duration,
    largest_acked: u64,
    pkt_thresh: u64,
    time_thresh: u32,
) -> AckOutcome {
    let accepted = pick(s.take(n), regular(s, ranges));
    AckOutcome {
        acked: count(n, hits(s, ranges)) > 0,
        undo_cwnd: count(n, spurious_in_flight(s, ranges)) > 0,
        has_ack_eliciting: count(n, eliciting(s, ranges)) > 0,
        largest_newly_acked_pkt_num: if accepted.len() > 0 {
            accepted.last().pkt_num
        } else {
            0
        },
        largest_newly_acked_sent_time: if accepted.len() > 0 {
            accepted.last().time_sent
        } else {
            now
        },
        spurious: count(n, spurious(s, ranges)) as usize,
        pkt_thresh: raised_threshold(
            pkt_thresh,
            largest_acked,
            pick(s.take(n), spurious(s, ranges)),
        ),
        time_thresh: if count(n, late(s, ranges, now, delay)) > 0 {
            RAISED_TIME_THRESHOLD
        } else {
            time_thresh
        },
    }
}

impl SpaceView {
    /// Nothing has been sent in the space.
    pub open spec fn empty() -> SpaceView {
        SpaceView {
            time_of_last_sent_ack_eliciting_pkt: None,
            largest_acked_pkt: u64::MAX,
            largest_sent_pkt: 0,
            loss_time: None,
            sent: Seq::empty(),
            lost: Seq::empty(),
            acked: Seq::empty(),
            loss_probes: 0,
            in_flight_count: 0,
        }
    }

    pub open spec fn wf(self) -> bool {
        &&& all_wf(self.sent)
        &&& self.time_of_last_sent_ack_eliciting_pkt matches Some(t) ==> t.in_range()
    }

    /// The space once the ranges have acknowledged packets.
    pub open spec fn after_ack(self, ranges: Seq<PktRange>, now: Instant) -> SpaceView {
        SpaceView {
            sent: Seq::new(
                self.sent.len(),
                |i: int|
                    if hit(ranges, self.sent[i]) {
                        with_ack(self.sent[i], now)
                    } else {
                        self.sent[i]
                    },
            ),
            acked: self.acked + frames_in(pick(self.sent, fresh(self.sent, ranges))),
            in_flight_count: less(
                self.in_flight_count,
                count(self.sent.len() as int, fresh_in_flight(self.sent, ranges)) as int,
            ),
            ..self
        }
    }
}

/// The predicates that an ACK frame is judged by skip the packets that it does
/// not list.
proof fn lemma_ack_skip(
    s: Seq<SentView>,
    a: int,
    b: int,
    ranges: Seq<PktRange>,
    now: Instant,
    delay: Duration,
)
    requires
        0 <= a <= b <= s.len(),
        forall|i: int| a <= i < b ==> !hit(ranges, #[trigger] s[i]),
    ensures
        count(a, hits(s, ranges)) == count(b, hits(s, ranges)),
        count(a, spurious(s, ranges)) == count(b, spurious(s, ranges)),
        count(a, spurious_in_flight(s, ranges)) == count(b, spurious_in_flight(s, ranges)),
        count(a, late(s, ranges, now, delay)) == count(b, late(s, ranges, now, delay)),
        count(a, eliciting(s, ranges)) == count(b, eliciting(s, ranges)),
        count(a, fresh_in_flight(s, ranges)) == count(b, fresh_in_flight(s, ranges)),
        pick(s.take(a), spurious(s, ranges)) == pick(s.take(b), spurious(s, ranges)),
        pick(s.take(a), regular(s, ranges)) == pick(s.take(b), regular(s, ranges)),
        pick(s.take(a), fresh(s, ranges)) == pick(s.take(b), fresh(s, ranges)),
{
    lemma_count_skip(hits(s, ranges), a, b);
    lemma_count_skip(spurious(s, ranges), a, b);
    lemma_count_skip(spurious_in_flight(s, ranges), a, b);
    lemma_count_skip(late(s, ranges, now, delay), a, b);
    lemma_count_skip(eliciting(s, ranges), a, b);
    lemma_count_skip(fresh_in_flight(s, ranges), a, b);
    lemma_pick_skip(s, spurious(s, ranges), a, b);
    lemma_pick_skip(s, regular(s, ranges), a, b);
    lemma_pick_skip(s, fresh(s, ranges), a, b);
}

impl PacketSpace {
    pub fn new() -> (s: PacketSpace)
        ensures
            s@ == SpaceView::empty(),
    {
        PacketSpace {
            time_of_last_sent_ack_eliciting_pkt: None,
            largest_acked_pkt: u64::MAX,
            largest_sent_pkt: 0,
            loss_time: None,
            sent: Vec::new(),
            lost: Vec::new(),
            acked: Vec::new(),
            loss_probes: 0,
            in_flight_count: 0,
        }
    }

    /// The position of the first packet whose number is no less than `lowest`.
    fn first_from(&self, lowest: u64) -> (r: usize)
        requires
            in_order(self@.sent),
        ensures
            r <= self@.sent.len(),
            forall|i: int| 0 <= i < r ==> (#[trigger] self@.sent[i]).pkt_num < lowest,
            forall|i: int| r <= i < self@.sent.len() ==> (#[trigger] self@.sent[i]).pkt_num
                >= lowest,
    {
        let ghost s = self@.sent;
        let len = self.sent.len();
        // In the happy case the first packet of the list is the one.
        if len == 0 || self.sent[0].pkt_num == lowest {
            assert(forall|i: int| 0 < i < len ==> s[0].pkt_num < (#[trigger] s[i]).pkt_num);
            assert(len > 0 ==> s[0].pkt_num == lowest);
            return 0;
        }
        let mut lo: usize = 0;
        let mut hi: usize = len;
        while lo < hi
            invariant
                lo <= hi <= len,
                len == self.sent@.len(),
                s == self@.sent,
                in_order(s),
                forall|i: int| 0 <= i < lo ==> (#[trigger] s[i]).pkt_num < lowest,
                forall|i: int| hi <= i < len ==> (#[trigger] s[i]).pkt_num >= lowest,
            decreases hi - lo,
        {
            let mid = lo + (hi - lo) / 2;
            assert(s[mid as int].pkt_num == self.sent@[mid as int].pkt_num);
            if self.sent[mid].pkt_num < lowest {
                lo = mid + 1;
            } else {
                hi = mid;
            }
        }
        lo
    }

    /// Marks the packets that the ranges acknowledge, without removing them,
    /// and appends the record of each that was not known to have arrived.
    pub fn mark_acked(
        &mut self,
        ranges: &RangeSet,
        now: Instant,
        delay: Duration,
        pkt_thresh: u64,
        time_thresh: u32,
        newly_acked: &mut Vec<Acked>,
    ) -> (o: AckOutcome)
        requires
            old(self)@.wf(),
            in_order(old(self)@.sent),
            ranges.wf(),
            now.in_range(),
            old(self).largest_acked_pkt < u64::MAX,
            forall|n: u64| ranges.has(n) ==> n <= old(self).largest_acked_pkt,
        ensures
            final(self)@ == old(self)@.after_ack(ranges.ranges@, now),
            final(newly_acked)@ == old(newly_acked)@ + records(
                pick(old(self)@.sent, fresh(old(self)@.sent, ranges.ranges@)),
                now,
            ),
            o == ack_outcome(
                old(self)@.sent,
                old(self)@.sent.len() as int,
                ranges.ranges@,
                now,
                delay,
                old(self).largest_acked_pkt,
                pkt_thresh,
                time_thresh,
            ),
    {
        let ghost s = self@.sent;
        let ghost rs = ranges.ranges@;
        let ghost acked0 = self.acked@;
        let ghost count0 = self.in_flight_count;
        let ghost newly0 = newly_acked@;
        let largest_acked = self.largest_acked_pkt;
        let len = self.sent.len();
        let blocks = ranges.ranges.len();
        let mut o = AckOutcome {
            acked: false,
            undo_cwnd: false,
            has_ack_eliciting: false,
            largest_newly_acked_pkt_num: 0,
            largest_newly_acked_sent_time: now,
            spurious: 0,
            pkt_thresh,
            time_thresh,
        };
        let mut done: usize = 0;
        let mut k: usize = 0;
        proof {
            assert(s.take(0) =~= Seq::<SentView>::empty());
            assert(frames_in(Seq::<SentView>::empty()) =~= Seq::<Frame>::empty());
            assert(acked0 + Seq::<Frame>::empty() =~= acked0);
            assert(newly0 + records(Seq::<SentView>::empty(), now) =~= newly0);
        }
        while k < blocks
            invariant
                k <= blocks,
                blocks == ranges.ranges@.len(),
                rs == ranges.ranges@,
                ranges.wf(),
                done <= len,
                len == s.len(),
                len == self.sent@.len(),
                all_wf(s),
                in_order(s),
                now.in_range(),
                s == old(self)@.sent,
                largest_acked < u64::MAX,
                forall|n: u64| ranges.has(n) ==> n <= largest_acked,
                // The packets before `done` are dealt with, the others are as they were.
                forall|i: int|
                    0 <= i < len ==> (#[trigger] self.sent@[i])@ == if i < done && hit(
                        rs,
                        s[i],
                    ) {
                        with_ack(s[i], now)
                    } else {
                        s[i]
                    },
                forall|i: int, j: int|
                    0 <= i < k && done <= j < len ==> !(#[trigger] rs[i]).has(
                        (#[trigger] s[j]).pkt_num,
                    ),
                forall|i: int, j: int|
                    k <= i < blocks && 0 <= j < done ==> (#[trigger] s[j]).pkt_num < (
                    #[trigger] rs[i]).start,
                self@ == (SpaceView {
                    sent: self@.sent,
                    acked: self@.acked,
                    in_flight_count: self@.in_flight_count,
                    ..old(self)@
                }),
                self.acked@ == acked0 + frames_in(pick(s.take(done as int), fresh(s, rs))),
                self.in_flight_count == less(
                    count0,
                    count(done as int, fresh_in_flight(s, rs)) as int,
                ),
                newly_acked@ == newly0 + records(pick(s.take(done as int), fresh(s, rs)), now),
                count(done as int, spurious(s, rs)) <= done,
                o == ack_outcome(
                    s,
                    done as int,
                    rs,
                    now,
                    delay,
                    largest_acked,
                    pkt_thresh,
                    time_thresh,
                ),
            decreases blocks - k,
        {
            let block = ranges.ranges[k];
            proof {
                assert forall|i: int, j: int| 0 <= i < j < len implies (
                #[trigger] self@.sent[i]).pkt_num < (#[trigger] self@.sent[j]).pkt_num by {
                    assert(self@.sent[i].pkt_num == s[i].pkt_num);
                    assert(self@.sent[j].pkt_num == s[j].pkt_num);
                }
            }
            let first = self.first_from(block.start);
            let mut i: usize = first;
            proof {
                assert(forall|j: int| 0 <= j < len ==> self@.sent[j].pkt_num == (
                #[trigger] s[j]).pkt_num);
                assert(done <= first) by {
                    if first < done {
                        assert(s[first as int].pkt_num < rs[k as int].start);
                        assert(self@.sent[first as int].pkt_num >= block.start);
                    }
                }
                assert forall|j: int| done <= j < first implies !hit(rs, #[trigger] s[j]) by {
                    assert(self@.sent[j].pkt_num < block.start);
                    if listed(rs, s[j].pkt_num) {
                        let b = choose|b: int|
                            0 <= b < rs.len() && (#[trigger] rs[b]).has(s[j].pkt_num);
                        if b > k {
                            assert(rs[k as int].end < rs[b].start);
                        }
                    }
                }
                lemma_ack_skip(s, done as int, first as int, rs, now, delay);
            }
            while i < len && self.sent[i].pkt_num < block.end
                invariant
                    k < blocks,
                    block == rs[k as int],
                    blocks == ranges.ranges@.len(),
                    rs == ranges.ranges@,
                    ranges.wf(),
                    done <= first <= i <= len,
                    len == s.len(),
                    len == self.sent@.len(),
                    all_wf(s),
                    in_order(s),
                    now.in_range(),
                    s == old(self)@.sent,
                    largest_acked < u64::MAX,
                    forall|n: u64| ranges.has(n) ==> n <= largest_acked,
                    forall|j: int|
                        first <= j < len ==> (#[trigger] s[j]).pkt_num >= block.start,
                    forall|j: int| first <= j < i ==> (#[trigger] s[j]).pkt_num < block.end,
                    forall|j: int|
                        0 <= j < len ==> (#[trigger] self.sent@[j])@ == if j < i && hit(
                            rs,
                            s[j],
                        ) {
                            with_ack(s[j], now)
                        } else {
                            s[j]
                        },
                    self@ == (SpaceView {
                        sent: self@.sent,
                        acked: self@.acked,
                        in_flight_count: self@.in_flight_count,
                        ..old(self)@
                    }),
                    self.acked@ == acked0 + frames_in(pick(s.take(i as int), fresh(s, rs))),
                    self.in_flight_count == less(
                        count0,
                        count(i as int, fresh_in_flight(s, rs)) as int,
                    ),
                    newly_acked@ == newly0 + records(pick(s.take(i as int), fresh(s, rs)), now),
                    count(i as int, spurious(s, rs)) <= i,
                    o == ack_outcome(
                        s,
                        i as int,
                        rs,
                        now,
                        delay,
                        largest_acked,
                        pkt_thresh,
                        time_thresh,
                    ),
                decreases len - i,
            {
                let ghost p = s[i as int];
                let ghost picked = pick(s.take(i as int), fresh(s, rs));
                proof {
                    assert(self.sent@[i as int]@ == p);
                    assert(p.wf());
                    assert(block.has(p.pkt_num));
                    assert(listed(rs, p.pkt_num));
                    assert(ranges.has(p.pkt_num));
                    lemma_pick_next(s, fresh(s, rs), i as int);
                    lemma_pick_next(s, regular(s, rs), i as int);
                    lemma_pick_next(s, spurious(s, rs), i as int);
                    lemma_frames_push(picked, p);
                    lemma_records_push(picked, p, now);
                }
                if self.sent[i].time_acked.is_none() {
                    o.acked = true;
                    self.sent[i].time_acked = Some(now);
                    if self.sent[i].time_lost.is_some() {
                        // The packet had been declared lost: reordering is
                        // larger than was assumed.
                        let distance = largest_acked - self.sent[i].pkt_num + 1;
                        let wanted = if distance > MAX_PACKET_THRESHOLD {
                            MAX_PACKET_THRESHOLD
                        } else {
                            distance
                        };
                        proof {
                            let before = pick(s.take(i as int), spurious(s, rs));
                            if before.len() > 0 {
                                let j = lemma_pick_from(s.take(i as int), spurious(s, rs), 0);
                                assert(s.take(i as int)[j] == s[j]);
                                assert(s[j].pkt_num < s[i as int].pkt_num);
                            }
                        }
                        if wanted > o.pkt_thresh {
                            o.pkt_thresh = wanted;
                        }
                        let age = now.saturating_duration_since(self.sent[i].time_sent);
                        if age.nanos > delay.nanos {
                            o.time_thresh = RAISED_TIME_THRESHOLD;
                        }
                        if self.sent[i].in_flight {
                            o.undo_cwnd = true;
                        }
                        o.spurious = o.spurious + 1;
                    } else {
                        if self.sent[i].ack_eliciting {
                            o.has_ack_eliciting = true;
                        }
                        o.largest_newly_acked_pkt_num = self.sent[i].pkt_num;
                        o.largest_newly_acked_sent_time = self.sent[i].time_sent;
                        if self.sent[i].time_acked_sidecar.is_none() {
                            let mut frames = self.sent[i].frames.take();
                            self.acked.append(&mut frames);
                            if self.sent[i].in_flight {
                                self.in_flight_count = self.in_flight_count.saturating_sub(1);
                            }
                            let record = self.sent[i].acked_record(now);
                            newly_acked.push(record);
                        }
                    }
                }
                i = i + 1;
                proof {
                    assert(newly_acked@ =~= newly0 + records(
                        pick(s.take(i as int), fresh(s, rs)),
                        now,
                    ));
                    assert(self.acked@ =~= acked0 + frames_in(
                        pick(s.take(i as int), fresh(s, rs)),
                    ));
                }
            }
            proof {
                assert forall|b: int, j: int| 0 <= b < k + 1 && i <= j < len implies !(
                #[trigger] rs[b]).has((#[trigger] s[j]).pkt_num) by {
                    if i < j {
                        assert(s[i as int].pkt_num < s[j].pkt_num);
                    }
                    assert(self.sent@[i as int]@ == s[i as int]);
                    assert(s[i as int].pkt_num >= block.end);
                    if b < k {
                        assert(rs[b].end < rs[k as int].start);
                    }
                }
                assert forall|b: int, j: int| k + 1 <= b < blocks && 0 <= j < i implies (
                #[trigger] s[j]).pkt_num < (#[trigger] rs[b]).start by {
                    assert(rs[k as int].end < rs[b].start);
                    if j < first {
                        assert(self@.sent[j].pkt_num == s[j].pkt_num);
                    }
                }
            }
            done = i;
            k = k + 1;
        }
        proof {
            assert forall|j: int| done <= j < len implies !hit(rs, #[trigger] s[j]) by {
                if listed(rs, s[j].pkt_num) {
                    let b = choose|b: int|
                        0 <= b < rs.len() && (#[trigger] rs[b]).has(s[j].pkt_num);
                }
            }
            lemma_ack_skip(s, done as int, len as int, rs, now, delay);
            assert(s.take(len as int) =~= s);
            assert(self@ =~= old(self)@.after_ack(rs, now));
        }
        o
    }
}

} // verus!
