//! Marking the packets that a proxy near the sender reports as received or as
//! missing.
use std::collections::HashSet;
use vstd::prelude::*;

use crate::frame::Frame;
use crate::lists::bytes;
use crate::lists::count;
use crate::lists::frames_in;
use crate::lists::lemma_bytes_le;
use crate::lists::lemma_bytes_next;
use crate::lists::lemma_bytes_none;
use crate::lists::lemma_bytes_skip;
use crate::lists::lemma_count_bound;
use crate::lists::lemma_count_skip;
use crate::lists::lemma_frames_push;
use crate::lists::lemma_pick_next;
use crate::lists::lemma_pick_skip;
use crate::lists::lemma_records_push;
use crate::lists::less;
use crate::lists::pick;
use crate::lists::records;
use crate::loss::last_lost;
use crate::loss::unlost;
use crate::loss::unlost_bytes_in;
use crate::loss::with_loss;
use crate::loss::LossOutcome;
use crate::loss::LostPacket;
use crate::sent::Acked;
use crate::sent::SentView;
use crate::space::all_wf;
use crate::space::PacketSpace;
use crate::space::SpaceView;
use crate::time::Instant;

verus! {

/// The packet is the first unacknowledged one with its identifier, and the
/// identifier is one of `ids`.
pub open spec fn is_named(s: Seq<SentView>, ids: Set<u32>, i: int) -> bool {
    &&& s[i].unacked()
    &&& ids.contains(s[i].sidecar_id)
    &&& forall|j: int|
        0 <= j < i && (#[trigger] s[j]).unacked() ==> s[j].sidecar_id != s[i].sidecar_id
}

/// The positions of the packets that `ids` name.
pub open spec fn named(s: Seq<SentView>, ids: Set<u32>) -> spec_fn(int) -> bool {
    |i: int| is_named(s, ids, i)
}

/// Those of them that are in flight.
pub open spec fn named_in_flight(s: Seq<SentView>, ids: Set<u32>) -> spec_fn(int) -> bool {
    |i: int| is_named(s, ids, i) && s[i].in_flight
}

/// Those of them that have not been declared lost.
pub open spec fn missed(s: Seq<SentView>, ids: Set<u32>) -> spec_fn(int) -> bool {
    |i: int| is_named(s, ids, i) && s[i].time_lost is None
}

/// Those of them that have not been declared lost and are in flight.
pub open spec fn missed_in_flight(s: Seq<SentView>, ids: Set<u32>) -> spec_fn(int) -> bool {
    |i: int| is_named(s, ids, i) && s[i].time_lost is None && s[i].in_flight
}

/// The packet once the proxy has received it.
pub open spec fn with_echo(p: SentView, now: Instant) -> SentView {
    SentView { time_acked_sidecar: Some(now), frames: Seq::empty(), ..p }
}

impl SpaceView {
    /// The space once the proxy has received the packets that `ids` name.
    pub open spec fn after_echo(self, ids: Set<u32>, now: Instant) -> SpaceView {
        SpaceView {
            sent: Seq::new(
                self.sent.len(),
                |i: int|
                    if is_named(self.sent, ids, i) {
                        with_echo(self.sent[i], now)
                    } else {
                        self.sent[i]
                    },
            ),
            acked: self.acked + frames_in(pick(self.sent, named(self.sent, ids))),
            in_flight_count: less(
                self.in_flight_count,
                count(self.sent.len() as int, named_in_flight(self.sent, ids)) as int,
            ),
            ..self
        }
    }

    /// When the last packet that `ids` name was sent, or the current time.
    pub open spec fn last_echo_sent(self, ids: Set<u32>, now: Instant) -> Instant {
        let echoed = pick(self.sent, named(self.sent, ids));
        if echoed.len() > 0 {
            echoed.last().time_sent
        } else {
            now
        }
    }

    /// The space once the packets that `ids` name are missing at the proxy.
    pub open spec fn after_miss(self, ids: Set<u32>, now: Instant) -> SpaceView {
        SpaceView {
            sent: Seq::new(
                self.sent.len(),
                |i: int|
                    if is_named(self.sent, ids, i) && self.sent[i].time_lost is None {
                        with_loss(self.sent[i], now)
                    } else {
                        self.sent[i]
                    },
            ),
            lost: self.lost + frames_in(pick(self.sent, missed(self.sent, ids))),
            in_flight_count: less(
                self.in_flight_count,
                count(self.sent.len() as int, missed_in_flight(self.sent, ids)) as int,
            ),
            ..self
        }
    }

    pub open spec fn miss_outcome(self, ids: Set<u32>) -> LossOutcome {
        LossOutcome {
            lost_packets: count(self.sent.len() as int, missed(self.sent, ids)) as usize,
            lost_bytes: bytes(self.sent, missed_in_flight(self.sent, ids)) as usize,
            largest_lost_pkt: last_lost(pick(self.sent, missed_in_flight(self.sent, ids))),
        }
    }
}

/// The identifiers of `ids` that no unacknowledged packet among the first `n`
/// carries.
spec fn left_over(s: Seq<SentView>, ids: Set<u32>, n: int) -> Set<u32> {
    Set::new(
        |id: u32|
            ids.contains(id) && forall|j: int|
                0 <= j < n && (#[trigger] s[j]).unacked() ==> s[j].sidecar_id != id,
    )
}

impl PacketSpace {
    /// Marks the packets that the proxy has received, without removing them.
    /// Returns their records and when the last of them was sent.
    pub fn mark_echoed(&mut self, acked_ids: HashSet<u32>, now: Instant) -> (r: (
        Vec<Acked>,
        Instant,
    ))
        requires
            old(self)@.wf(),
            now.in_range(),
        ensures
            final(self)@ == old(self)@.after_echo(acked_ids@, now),
            r.0@ == records(
                pick(old(self)@.sent, named(old(self)@.sent, acked_ids@)),
                now,
            ),
            r.1 == old(self)@.last_echo_sent(acked_ids@, now),
    {
        let ghost v = self@;
        let ghost s = self@.sent;
        let ghost ids = acked_ids@;
        let ghost keep = named(s, ids);
        let ghost flew = named_in_flight(s, ids);
        let mut left = acked_ids;
        let mut newly_acked: Vec<Acked> = Vec::new();
        let mut last_sent = now;
        let len = self.sent.len();
        let mut i: usize = 0;
        proof {
            assert(s.take(0) =~= Seq::<SentView>::empty());
            assert(v.acked + Seq::<Frame>::empty() =~= v.acked);
            assert(newly_acked@ =~= records(Seq::<SentView>::empty(), now));
            assert(left@ =~= left_over(s, ids, 0));
        }
        while i < len && !left.is_empty()
            invariant
                i <= len,
                len == s.len(),
                len == self.sent@.len(),
                s == v.sent,
                v == old(self)@,
                keep == named(s, ids),
                flew == named_in_flight(s, ids),
                all_wf(s),
                now.in_range(),
                left@ == left_over(s, ids, i as int),
                forall|j: int|
                    0 <= j < len ==> (#[trigger] self.sent@[j])@ == if j < i && is_named(
                        s,
                        ids,
                        j,
                    ) {
                        with_echo(s[j], now)
                    } else {
                        s[j]
                    },
                self@ == (SpaceView {
                    sent: self@.sent,
                    acked: self@.acked,
                    in_flight_count: self@.in_flight_count,
                    ..v
                }),
                self.acked@ == v.acked + frames_in(pick(s.take(i as int), keep)),
                self.in_flight_count == less(v.in_flight_count, count(i as int, flew) as int),
                newly_acked@ == records(pick(s.take(i as int), keep), now),
                last_sent == if pick(s.take(i as int), keep).len() > 0 {
                    pick(s.take(i as int), keep).last().time_sent
                } else {
                    now
                },
            decreases len - i,
        {
            let ghost p = s[i as int];
            let ghost picked = pick(s.take(i as int), keep);
            proof {
                assert(self.sent@[i as int]@ == p);
                assert(p.wf());
                lemma_pick_next(s, keep, i as int);
                lemma_frames_push(picked, p);
                lemma_records_push(picked, p, now);
            }
            if self.sent[i].time_acked_sidecar.is_none() && self.sent[i].time_acked.is_none() {
                let id = self.sent[i].sidecar_id;
                if left.remove(&id) {
                    assert(is_named(s, ids, i as int));
                    self.sent[i].time_acked_sidecar = Some(now);
                    last_sent = self.sent[i].time_sent;
                    let mut frames = self.sent[i].frames.take();
                    self.acked.append(&mut frames);
                    if self.sent[i].in_flight {
                        self.in_flight_count = self.in_flight_count.saturating_sub(1);
                    }
                    let record = self.sent[i].acked_record(now);
                    newly_acked.push(record);
                }
            }
            i = i + 1;
            proof {
                assert(left@ =~= left_over(s, ids, i as int));
                assert(self.acked@ =~= v.acked + frames_in(pick(s.take(i as int), keep)));
            }
        }
        proof {
            assert forall|j: int| i <= j < len implies !is_named(s, ids, j) by {
                if is_named(s, ids, j) {
                    assert(left_over(s, ids, i as int).contains(s[j].sidecar_id));
                }
            }
            assert(forall|j: int| i <= j < len ==> !(#[trigger] keep(j)));
            assert(forall|j: int| i <= j < len ==> !(#[trigger] flew(j)));
            lemma_pick_skip(s, keep, i as int, len as int);
            lemma_count_skip(flew, i as int, len as int);
            assert(s.take(len as int) =~= s);
            assert(self@ =~= v.after_echo(ids, now));
        }
        (newly_acked, last_sent)
    }

    /// Declares the packets that are missing at the proxy lost, without
    /// removing them, unless that had been done before.
    pub fn mark_missing(&mut self, missing_ids: HashSet<u32>, now: Instant) -> (o: LossOutcome)
        requires
            old(self)@.wf(),
            now.in_range(),
            unlost_bytes_in(old(self)@.sent) <= usize::MAX,
        ensures
            final(self)@ == old(self)@.after_miss(missing_ids@, now),
            o == old(self)@.miss_outcome(missing_ids@),
    {
        let ghost v = self@;
        let ghost s = self@.sent;
        let ghost ids = missing_ids@;
        let ghost keep = missed(s, ids);
        let ghost flew = missed_in_flight(s, ids);
        let mut left = missing_ids;
        let mut o = LossOutcome { lost_packets: 0, lost_bytes: 0, largest_lost_pkt: None };
        let len = self.sent.len();
        let mut i: usize = 0;
        proof {
            reveal(unlost_bytes_in);
            assert(s.take(0) =~= Seq::<SentView>::empty());
            assert(v.lost + Seq::<Frame>::empty() =~= v.lost);
            assert(left@ =~= left_over(s, ids, 0));
        }
        while i < len && !left.is_empty()
            invariant
                i <= len,
                len == s.len(),
                len == self.sent@.len(),
                s == v.sent,
                v == old(self)@,
                keep == missed(s, ids),
                flew == missed_in_flight(s, ids),
                bytes(s, unlost(s)) <= usize::MAX,
                left@ == left_over(s, ids, i as int),
                forall|j: int|
                    0 <= j < len ==> (#[trigger] self.sent@[j])@ == if j < i && is_named(
                        s,
                        ids,
                        j,
                    ) && s[j].time_lost is None {
                        with_loss(s[j], now)
                    } else {
                        s[j]
                    },
                self@ == (SpaceView {
                    sent: self@.sent,
                    lost: self@.lost,
                    in_flight_count: self@.in_flight_count,
                    ..v
                }),
                self.lost@ == v.lost + frames_in(pick(s.take(i as int), keep)),
                self.in_flight_count == less(v.in_flight_count, count(i as int, flew) as int),
                o.lost_packets == count(i as int, keep),
                o.lost_bytes == bytes(s.take(i as int), flew),
                o.largest_lost_pkt == last_lost(pick(s.take(i as int), flew)),
            decreases len - i,
        {
            let ghost p = s[i as int];
            let ghost picked = pick(s.take(i as int), keep);
            proof {
                assert(self.sent@[i as int]@ == p);
                lemma_pick_next(s, keep, i as int);
                lemma_pick_next(s, flew, i as int);
                lemma_bytes_next(s, flew, i as int);
                lemma_frames_push(picked, p);
            }
            if self.sent[i].time_acked.is_none() && self.sent[i].time_acked_sidecar.is_none() {
                let id = self.sent[i].sidecar_id;
                if left.remove(&id) {
                    assert(is_named(s, ids, i as int));
                    if self.sent[i].time_lost.is_none() {
                        // Retransmit missing packets.
                        let mut frames = self.sent[i].frames.take();
                        self.lost.append(&mut frames);
                        self.sent[i].time_lost = Some(now);
                        if self.sent[i].in_flight {
                            proof {
                                lemma_missed_bytes(s, ids, i as int);
                            }
                            o.lost_bytes = o.lost_bytes + self.sent[i].size;
                            o.largest_lost_pkt = Some(
                                LostPacket {
                                    pkt_num: self.sent[i].pkt_num,
                                    time_sent: self.sent[i].time_sent,
                                },
                            );
                            self.in_flight_count = self.in_flight_count.saturating_sub(1);
                        }
                        proof {
                            lemma_count_bound(i as int, keep);
                        }
                        o.lost_packets = o.lost_packets + 1;
                    }
                }
            }
            i = i + 1;
            proof {
                assert(left@ =~= left_over(s, ids, i as int));
                assert(self.lost@ =~= v.lost + frames_in(pick(s.take(i as int), keep)));
            }
        }
        proof {
            assert forall|j: int| i <= j < len implies !is_named(s, ids, j) by {
                if is_named(s, ids, j) {
                    assert(left_over(s, ids, i as int).contains(s[j].sidecar_id));
                }
            }
            assert(forall|j: int| i <= j < len ==> !(#[trigger] keep(j)));
            assert(forall|j: int| i <= j < len ==> !(#[trigger] flew(j)));
            lemma_pick_skip(s, keep, i as int, len as int);
            lemma_pick_skip(s, flew, i as int, len as int);
            lemma_count_skip(keep, i as int, len as int);
            lemma_count_skip(flew, i as int, len as int);
            lemma_bytes_none(s, flew, i as int, len as int);
            assert(s.take(len as int) =~= s);
            assert(self@ =~= v.after_miss(ids, now));
        }
        o
    }
}

/// The missed packets in flight up to and including position `i` weigh no more
/// than all that were not declared lost.
proof fn lemma_missed_bytes(s: Seq<SentView>, ids: Set<u32>, i: int)
    requires
        0 <= i < s.len(),
        missed_in_flight(s, ids)(i),
    ensures
        bytes(s.take(i), missed_in_flight(s, ids)) + s[i].size <= bytes(s, unlost(s)),
{
    let keep = missed_in_flight(s, ids);
    lemma_bytes_next(s, keep, i);
    lemma_bytes_le(s.take(i + 1), keep, unlost(s));
    lemma_bytes_skip(s, unlost(s), i + 1, s.len() as int);
    assert(s.take(s.len() as int) =~= s);
}

/// No two unacknowledged packets of the list carry the same identifier.
pub open spec fn distinct_ids(s: Seq<SentView>) -> bool {
    forall|i: int, j: int|
        0 <= i < j < s.len() && (#[trigger] s[i]).unacked() && (#[trigger] s[j]).unacked()
            ==> s[i].sidecar_id != s[j].sidecar_id
}

/// The same echo changes nothing the second time, as long as no two packets
/// carry the same identifier.
pub proof fn lemma_echo_twice(v: SpaceView, ids: Set<u32>, now: Instant, later: Instant)
    requires
        distinct_ids(v.sent),
    ensures
        v.after_echo(ids, now).after_echo(ids, later) == v.after_echo(ids, now),
        records(
            pick(v.after_echo(ids, now).sent, named(v.after_echo(ids, now).sent, ids)),
            later,
        ) == Seq::<Acked>::empty(),
{
    let w = v.after_echo(ids, now);
    let n = w.sent.len() as int;
    let keep = named(w.sent, ids);
    let flew = named_in_flight(w.sent, ids);
    let none = Seq::<SentView>::empty();
    assert forall|i: int| 0 <= i < n implies !is_named(w.sent, ids, i) by {
        if is_named(w.sent, ids, i) {
            assert(v.sent[i].unacked());
            assert(!is_named(v.sent, ids, i));
        }
    }
    assert(forall|i: int| 0 <= i < n ==> !(#[trigger] keep(i)));
    assert(forall|i: int| 0 <= i < n ==> !(#[trigger] flew(i)));
    lemma_pick_skip(w.sent, keep, 0, n);
    lemma_count_skip(flew, 0, n);
    assert(w.sent.take(n) =~= w.sent);
    assert(w.sent.take(0) =~= none);
    assert(w.acked + frames_in(none) =~= w.acked);
    assert(w.after_echo(ids, later) =~= w);
}

/// The same missing packets are lost only once.
pub proof fn lemma_miss_twice(v: SpaceView, ids: Set<u32>, now: Instant, later: Instant)
    ensures
        v.after_miss(ids, now).after_miss(ids, later) == v.after_miss(ids, now),
        v.after_miss(ids, now).miss_outcome(ids).lost_packets == 0,
        v.after_miss(ids, now).miss_outcome(ids).lost_bytes == 0,
        v.after_miss(ids, now).miss_outcome(ids).largest_lost_pkt is None,
{
    let w = v.after_miss(ids, now);
    let n = w.sent.len() as int;
    let keep = missed(w.sent, ids);
    let flew = missed_in_flight(w.sent, ids);
    let none = Seq::<SentView>::empty();
    assert forall|i: int| 0 <= i < n implies !(is_named(w.sent, ids, i)
        && w.sent[i].time_lost is None) by {
        if is_named(w.sent, ids, i) && w.sent[i].time_lost is None {
            assert forall|j: int| 0 <= j < i && (#[trigger] v.sent[j]).unacked() implies
                v.sent[j].sidecar_id != v.sent[i].sidecar_id by {
                assert(w.sent[j].unacked());
            }
            assert(is_named(v.sent, ids, i));
        }
    }
    assert(forall|i: int| 0 <= i < n ==> !(#[trigger] keep(i)));
    assert(forall|i: int| 0 <= i < n ==> !(#[trigger] flew(i)));
    lemma_pick_skip(w.sent, keep, 0, n);
    lemma_pick_skip(w.sent, flew, 0, n);
    lemma_count_skip(keep, 0, n);
    lemma_count_skip(flew, 0, n);
    lemma_bytes_none(w.sent, flew, 0, n);
    assert(w.sent.take(n) =~= w.sent);
    assert(w.sent.take(0) =~= none);
    assert(w.lost + frames_in(none) =~= w.lost);
    assert(w.after_miss(ids, later) =~= w);
}

} // verus!
