//! The bytes in flight are those of the packets that are outstanding.
//!
//! This holds of Reno, and of every algorithm that changes the bytes in flight
//! in no other way than Reno does, as long as every packet counts towards them
//! and the proxy acknowledges none.
use vstd::prelude::*;

use crate::algorithms::CongestionControl;
use crate::congestion::CongestionControlAlgorithm;
use crate::congestion::CongestionControlOps;
use crate::congestion::CongestionState;
use crate::congestion::QuackMetadata;
use crate::laws::lemma_departure_keeps_lists;
use crate::laws::lemma_pacing_keeps_lists;
use crate::lists::bytes;
use crate::lists::count;
use crate::lists::first_index;
use crate::lists::lemma_bytes_none;
use crate::lists::lemma_bytes_split;
use crate::lists::lemma_count_some;
use crate::lists::lemma_first_index;
use crate::lists::pick;
use crate::lists::records;
use crate::loss::flying;
use crate::loss::in_flight_before;
use crate::loss::remembered;
use crate::loss::search_ends;
use crate::model::HandshakeStatus;
use crate::model::RecoveryView;
use crate::packet::Epoch;
use crate::ranges::PktRange;
use crate::reno::all_acked;
use crate::reno::Reno;
use crate::sent::Acked;
use crate::sent::SentView;
use crate::space::fresh;
use crate::space::hits;
use crate::space::SpaceView;
use crate::time::Duration;
use crate::time::Instant;

verus! {

/// Every packet of the list counts towards the bytes in flight, and the proxy
/// has acknowledged none.
pub open spec fn all_counted(s: Seq<SentView>) -> bool {
    forall|i: int|
        0 <= i < s.len() ==> (#[trigger] s[i]).in_flight && s[i].time_acked_sidecar is None
}

/// The sizes of the packets of the records, added up.
pub open spec fn sizes(acked: Seq<Acked>) -> nat
    decreases acked.len(),
{
    if acked.len() == 0 {
        0
    } else {
        sizes(acked.drop_last()) + acked.last().size as nat
    }
}

/// The algorithm adds the bytes of a packet that is sent to those in flight,
/// takes those of acknowledged packets out, and leaves them alone otherwise.
/// It keeps no state of its own.
pub open spec fn counts_bytes<C: CongestionControlOps>(ops: C) -> bool {
    &&& forall|s: CongestionState, sent_bytes: usize, now: Instant|
        s.bytes_in_flight + sent_bytes <= usize::MAX ==> {
            let (o, t) = #[trigger] ops.after_sent(s, sent_bytes, now);
            o == ops && t.bytes_in_flight == s.bytes_in_flight + sent_bytes
        }
    &&& forall|s: CongestionState, packets: Seq<Acked>, e: Epoch, now: Instant|
        sizes(packets) <= s.bytes_in_flight ==> {
            let (o, t, left) = #[trigger] ops.after_acked(s, packets, e, now);
            o == ops && t.bytes_in_flight == s.bytes_in_flight - sizes(packets)
        }
    &&& forall|
        s: CongestionState,
        lost_bytes: usize,
        time_sent: Instant,
        e: Epoch,
        now: Instant,
        metadata: Option<QuackMetadata>,
    |
        {
            let (o, t) = #[trigger] ops.after_congestion(
                s,
                lost_bytes,
                time_sent,
                e,
                now,
                metadata,
            );
            o == ops && t.bytes_in_flight == s.bytes_in_flight
        }
    &&& forall|s: CongestionState|
        {
            let (o, t) = #[trigger] ops.after_checkpoint(s);
            o == ops && t.bytes_in_flight == s.bytes_in_flight
        }
    &&& forall|s: CongestionState|
        {
            let (o, t, restored) = #[trigger] ops.after_rollback(s);
            o == ops && t.bytes_in_flight == s.bytes_in_flight
        }
}

impl<C: CongestionControlOps> RecoveryView<C> {
    /// The bytes in flight exceed those of the outstanding packets by `extra`.
    pub open spec fn in_flight_with(self, extra: int) -> bool {
        &&& counts_bytes(self.cc_ops)
        &&& self.spaces.len() == 3
        &&& all_counted(self.spaces[0].sent)
        &&& all_counted(self.spaces[1].sent)
        &&& all_counted(self.spaces[2].sent)
        &&& self.path.bytes_in_flight == self.spaces[0].flying_bytes()
            + self.spaces[1].flying_bytes() + self.spaces[2].flying_bytes() + extra
    }

    /// The bytes in flight are those of the outstanding packets.
    pub open spec fn in_flight_exact(self) -> bool {
        self.in_flight_with(0)
    }
}

/// Reno counts bytes in flight in this way, on its own and as the choice of a
/// connection.
pub proof fn lemma_reno_counts_bytes<U: CongestionControlOps, B: CongestionControlOps>()
    ensures
        counts_bytes(Reno),
        counts_bytes(CongestionControl::<U, B>::of(CongestionControlAlgorithm::Reno)),
{
    assert forall|s: CongestionState, packets: Seq<Acked>|
        sizes(packets) <= s.bytes_in_flight implies (#[trigger] all_acked(
        s,
        packets,
    )).bytes_in_flight == s.bytes_in_flight - sizes(packets) by {
        lemma_reno_acked(s, packets);
    }
}

proof fn lemma_no_pick_no_bytes(s: Seq<SentView>, keep: spec_fn(int) -> bool)
    requires
        pick(s, keep).len() == 0,
    ensures
        bytes(s, keep) == 0,
    decreases s.len(),
{
    if s.len() > 0 {
        lemma_no_pick_no_bytes(s.drop_last(), keep);
    }
}

proof fn lemma_record_sizes(s: Seq<SentView>, keep: spec_fn(int) -> bool, now: Instant)
    ensures
        sizes(records(pick(s, keep), now)) == bytes(s, keep),
    decreases s.len(),
{
    if s.len() > 0 {
        lemma_record_sizes(s.drop_last(), keep, now);
        let front = pick(s.drop_last(), keep);
        if keep(s.len() - 1) {
            assert(records(front.push(s.last()), now).drop_last() =~= records(front, now));
        }
    }
}

/// Reno takes the acknowledged bytes out of flight.
proof fn lemma_reno_acked(s: CongestionState, packets: Seq<Acked>)
    requires
        sizes(packets) <= s.bytes_in_flight,
    ensures
        all_acked(s, packets).bytes_in_flight == s.bytes_in_flight - sizes(packets),
    decreases packets.len(),
{
    if packets.len() > 0 {
        lemma_reno_acked(s, packets.drop_last());
    }
}

/// A list that loses packets at its front that are not kept weighs the same.
proof fn lemma_bytes_tail_same(
    s: Seq<SentView>,
    k: int,
    keep: spec_fn(int) -> bool,
    tail: spec_fn(int) -> bool,
)
    requires
        0 <= k <= s.len(),
        forall|i: int| 0 <= i < k ==> !(#[trigger] keep(i)),
        forall|i: int| 0 <= i < s.len() - k ==> (#[trigger] tail(i) <==> keep(i + k)),
    ensures
        bytes(s.skip(k), tail) == bytes(s, keep),
    decreases s.len(),
{
    if k < s.len() {
        let n = s.len() - 1;
        assert(s.skip(k).drop_last() =~= s.drop_last().skip(k));
        lemma_bytes_tail_same(s.drop_last(), k, keep, tail);
        assert(tail(n - k) <==> keep(n - k + k));
        assert(s.skip(k).last() == s.last());
    } else {
        lemma_bytes_none(s, keep, 0, k);
        assert(s.take(k) =~= s);
        assert(s.take(0) =~= Seq::empty());
        assert(s.skip(k).len() == 0);
    }
}

/// Draining a space leaves alone what is in flight.
proof fn lemma_drain_flight(v: SpaceView, rtt: Duration, now: Instant)
    requires
        all_counted(v.sent),
    ensures
        v.drained(rtt, now).flying_bytes() == v.flying_bytes(),
        all_counted(v.drained(rtt, now).sent),
{
    let w = v.drained(rtt, now);
    let len = v.sent.len() as int;
    let keep = remembered(v.sent, rtt, now);
    let n = first_index(0, len, keep);
    lemma_first_index(0, len, keep);
    assert forall|i: int| 0 <= i < n implies !(#[trigger] flying(v.sent)(i)) by {
        assert(!keep(i));
    }
    lemma_bytes_tail_same(v.sent, n, flying(v.sent), flying(w.sent));
    assert forall|i: int| 0 <= i < w.sent.len() implies (#[trigger] w.sent[i]).in_flight
        && w.sent[i].time_acked_sidecar is None by {
        assert(w.sent[i] == v.sent[i + n]);
    }
}

/// The bytes of lost packets are no longer in flight.
proof fn lemma_loss_flight(v: SpaceView, now: Instant, delay: Duration, pkt_thresh: u64)
    requires
        all_counted(v.sent),
    ensures
        ({
            let w = v.after_loss(now, delay, pkt_thresh);
            let n = v.search_end(now, delay, pkt_thresh);
            &&& all_counted(w.sent)
            &&& v.flying_bytes() == w.flying_bytes() + bytes(
                v.sent.take(n),
                in_flight_before(v.sent, n),
            )
        }),
{
    let w = v.after_loss(now, delay, pkt_thresh);
    let len = v.sent.len() as int;
    let n = v.search_end(now, delay, pkt_thresh);
    let flew = in_flight_before(v.sent, n);
    lemma_first_index(
        0,
        len,
        search_ends(v.sent, v.largest_acked_pkt, now, delay, pkt_thresh),
    );
    lemma_bytes_split(v.sent, w.sent, flying(v.sent), flew, flying(w.sent));
    lemma_bytes_none(v.sent, flew, n, len);
    assert(v.sent.take(len) =~= v.sent);
    assert forall|i: int| 0 <= i < w.sent.len() implies (#[trigger] w.sent[i]).in_flight
        && w.sent[i].time_acked_sidecar is None by {
        assert(v.sent[i].in_flight);
    }
}

/// Detecting losses takes the lost bytes out of flight.
pub proof fn lemma_loss_in_flight<C: CongestionControlOps>(
    m: RecoveryView<C>,
    extra: nat,
    e: Epoch,
    now: Instant,
)
    requires
        m.in_flight_with(extra as int),
    ensures
        m.after_loss(e, now).in_flight_with(extra as int),
{
    let v = m.space(e);
    let delay = m.loss_delay();
    let n = v.search_end(now, delay, m.pkt_thresh);
    let w = v.after_loss(now, delay, m.pkt_thresh);
    lemma_loss_flight(v, now, delay, m.pkt_thresh);
    let o = m.loss_outcome(e, now);
    let marked = m.with_loss_marked(e, now);
    if o.largest_lost_pkt is None {
        lemma_no_pick_no_bytes(v.sent.take(n), in_flight_before(v.sent, n));
    }
    let told = marked.with_loss_told(o, e, now);
    assert(told.in_flight_with(extra as int));
    lemma_drain_flight(told.space(e), told.path.spec_rtt(), now);
}

/// An ACK frame takes the acknowledged and the lost bytes out of flight.
pub proof fn lemma_ack_in_flight<C: CongestionControlOps>(
    m: RecoveryView<C>,
    ranges: Seq<PktRange>,
    ack_delay: u64,
    e: Epoch,
    hs: HandshakeStatus,
    now: Instant,
)
    requires
        m.in_flight_exact(),
    ensures
        m.after_ack(ranges, ack_delay, e, hs, now, Seq::empty()).0.in_flight_exact(),
{
    let largest = (ranges.last().end - 1) as u64;
    let raised = m.with_largest_acked(e, largest);
    assert(raised.in_flight_exact());
    let v = raised.space(e);
    let s = v.sent;
    let o = raised.ack_outcome(ranges, e, now);
    let w = v.after_ack(ranges, now);
    let extra = bytes(s, fresh(s, ranges));
    lemma_bytes_split(s, w.sent, flying(s), fresh(s, ranges), flying(w.sent));
    assert forall|i: int| 0 <= i < w.sent.len() implies (#[trigger] w.sent[i]).in_flight
        && w.sent[i].time_acked_sidecar is None by {
        assert(s[i].in_flight);
    }
    let marked = raised.with_ack_marked(ranges, e, now).with_rollback(o.undo_cwnd);
    assert(marked.in_flight_with(extra as int));
    let newly = records(pick(s, fresh(s, ranges)), now);
    lemma_record_sizes(s, fresh(s, ranges), now);
    assert(Seq::<Acked>::empty() + newly =~= newly);
    if o.acked {
        let timed = marked.with_ack_timed(o, largest, ack_delay, e, now);
        assert(timed.in_flight_with(extra as int));
        lemma_settled_in_flight(timed, newly, e, hs, now);
    } else {
        lemma_none_acked(s, ranges);
    }
}

/// Settling an ACK frame takes the acknowledged and the lost bytes out of
/// flight.
proof fn lemma_settled_in_flight<C: CongestionControlOps>(
    m: RecoveryView<C>,
    newly: Seq<Acked>,
    e: Epoch,
    hs: HandshakeStatus,
    now: Instant,
)
    requires
        m.in_flight_with(sizes(newly) as int),
    ensures
        m.with_ack_settled(newly, e, hs, now).0.in_flight_exact(),
{
    lemma_loss_in_flight(m, sizes(newly), e, now);
    let lost = m.after_loss(e, now);
    let told = lost.after_acked(newly, e, now).0;
    assert(told.in_flight_exact());
    let armed = RecoveryView { pto_count: 0, ..told }.with_timer(hs, now);
    assert(armed.spaces == told.spaces && armed.path == told.path);
    lemma_drain_flight(armed.space(e), armed.path.spec_rtt(), now);
}

/// Where nothing is acknowledged, nothing is freshly acknowledged.
proof fn lemma_none_acked(s: Seq<SentView>, ranges: Seq<PktRange>)
    requires
        count(s.len() as int, hits(s, ranges)) == 0,
    ensures
        bytes(s, fresh(s, ranges)) == 0,
{
    let n = s.len() as int;
    assert forall|i: int| 0 <= i < n implies !(#[trigger] fresh(s, ranges)(i)) by {
        if fresh(s, ranges)(i) {
            lemma_count_some(n, hits(s, ranges), i);
        }
    }
    lemma_bytes_none(s, fresh(s, ranges), 0, n);
    assert(s.take(n) =~= s);
    assert(s.take(0) =~= Seq::empty());
}

/// The expiry of the timer keeps the bytes in flight exact.
pub proof fn lemma_timeout_in_flight<C: CongestionControlOps>(
    m: RecoveryView<C>,
    hs: HandshakeStatus,
    now: Instant,
)
    requires
        m.in_flight_exact(),
    ensures
        m.after_timeout(hs, now).in_flight_exact(),
{
    lemma_loss_in_flight(m, 0, m.loss_deadline().1, now);
}

/// Dropping the keys of a space takes its packets out of flight.
pub proof fn lemma_discard_in_flight<C: CongestionControlOps>(
    m: RecoveryView<C>,
    e: Epoch,
    hs: HandshakeStatus,
    now: Instant,
)
    requires
        m.in_flight_exact(),
    ensures
        m.after_discard(e, hs, now).in_flight_exact(),
{
}

/// A packet that is sent is in flight.
pub proof fn lemma_send_in_flight<C: CongestionControlOps>(
    m: RecoveryView<C>,
    pkt: SentView,
    e: Epoch,
    hs: HandshakeStatus,
    now: Instant,
)
    requires
        m.in_flight_exact(),
        m.has_room(pkt.size),
        pkt.in_flight,
        pkt.outstanding(),
        pkt.time_acked_sidecar is None,
    ensures
        m.after_sent(pkt, e, hs, now).in_flight_exact(),
        m.after_sent(pkt, e, hs, now).path.bytes_in_flight == m.path.bytes_in_flight + pkt.size,
{
    let departed = m.with_departed(pkt, e, hs, now);
    lemma_departure_keeps_lists(m, pkt, e, hs, now);
    assert(departed.path.bytes_in_flight == m.path.bytes_in_flight + pkt.size);
    let paced = departed.with_pacing_rate(now).with_paced(pkt.size, e, now);
    lemma_pacing_keeps_lists(departed, pkt.size, e, now);
    let w = paced.with_listed(pkt, e);
    let s = paced.space(e).sent;
    let t = w.space(e).sent;
    assert(t.drop_last() =~= s);
    lemma_bytes_push(s, t);
}

/// A packet that is appended weighs its size.
proof fn lemma_bytes_push(s: Seq<SentView>, t: Seq<SentView>)
    requires
        t.len() > 0,
        t.drop_last() == s,
        flying(t)(t.len() - 1),
    ensures
        bytes(t, flying(t)) == bytes(s, flying(s)) + t.last().size,
{
    lemma_bytes_tail_same(s, 0, flying(s), flying(t));
    assert(s.skip(0) =~= s);
}

} // verus!
