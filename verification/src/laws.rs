//! What holds of the recovery state whatever happens on the path.
use vstd::arithmetic::power2::lemma_pow2_unfold;
use vstd::prelude::*;

use crate::algorithms::CongestionControl;
use crate::congestion::CongestionControlOps;
use crate::congestion::CongestionState;
use crate::congestion::INITIAL_WINDOW_PACKETS;
use crate::lists::count;
use crate::lists::first_index;
use crate::lists::frames_in;
use crate::lists::lemma_bytes_none;
use crate::lists::lemma_count_bound;
use crate::lists::lemma_count_skip;
use crate::lists::lemma_count_some;
use crate::lists::lemma_first_index;
use crate::lists::lemma_pick_skip;
use crate::lists::pick;
use crate::lists::records;
use crate::loss::in_flight_before;
use crate::loss::outstanding_before;
use crate::loss::remembered;
use crate::loss::search_ends;
use crate::model::HandshakeStatus;
use crate::model::RecoveryView;
use crate::model::MAX_PTO_COUNT;
use crate::model::MAX_PTO_PROBES_COUNT;
use crate::packet::Epoch;
use crate::ranges::listed;
use crate::ranges::PktRange;
use crate::reno::Reno;
use crate::sent::Acked;
use crate::sent::SentView;
use crate::space::fresh;
use crate::space::fresh_in_flight;
use crate::space::hit;
use crate::space::hits;
use crate::space::in_order;
use crate::space::late;
use crate::space::spurious;
use crate::space::spurious_in_flight;
use crate::space::SpaceView;
use crate::space::MAX_PACKET_THRESHOLD;
use crate::space::RAISED_TIME_THRESHOLD;
use crate::tally::lemma_ack_tally;
use crate::tally::lemma_drain_tally;
use crate::tally::lemma_echo_tally;
use crate::tally::lemma_loss_tally;
use crate::tally::lemma_miss_tally;
use crate::tally::lemma_send_tally;
use crate::time::Duration;
use crate::time::Instant;

verus! {

impl<C> RecoveryView<C> {
    /// The packet numbers grow along each list of sent packets.
    pub open spec fn ordered(self) -> bool {
        &&& self.spaces.len() == 3
        &&& in_order(self.spaces[0].sent)
        &&& in_order(self.spaces[1].sent)
        &&& in_order(self.spaces[2].sent)
    }
}

/// Detecting losses keeps the packets in order.
pub proof fn lemma_loss_keeps_order<C: CongestionControlOps>(
    m: RecoveryView<C>,
    e: Epoch,
    now: Instant,
)
    requires
        m.ordered(),
    ensures
        m.after_loss(e, now).ordered(),
{
    let v = m.space(e);
    lemma_loss_tally(v, now, m.loss_delay(), m.pkt_thresh);
    let w = v.after_loss(now, m.loss_delay(), m.pkt_thresh);
    let o = m.loss_outcome(e, now);
    let marked = m.with_loss_marked(e, now);
    let told = marked.with_loss_told(o, e, now);
    lemma_drain_tally(w, told.path.spec_rtt(), now);
}

/// An ACK frame keeps the packets in order.
pub proof fn lemma_ack_keeps_order<C: CongestionControlOps>(
    m: RecoveryView<C>,
    ranges: Seq<PktRange>,
    ack_delay: u64,
    e: Epoch,
    hs: HandshakeStatus,
    now: Instant,
    newly_acked: Seq<Acked>,
)
    requires
        m.ordered(),
    ensures
        m.after_ack(ranges, ack_delay, e, hs, now, newly_acked).0.ordered(),
{
    let largest = (ranges.last().end - 1) as u64;
    let raised = m.with_largest_acked(e, largest);
    lemma_ack_tally(raised.space(e), ranges, now);
    let o = raised.ack_outcome(ranges, e, now);
    let marked = raised.with_ack_marked(ranges, e, now).with_rollback(o.undo_cwnd);
    assert(marked.ordered());
    if o.acked {
        let timed = marked.with_ack_timed(o, largest, ack_delay, e, now);
        assert(timed.ordered());
        lemma_loss_keeps_order(timed, e, now);
        let lost = timed.after_loss(e, now);
        let s = raised.space(e).sent;
        let all = newly_acked + records(pick(s, fresh(s, ranges)), now);
        let told = lost.after_acked(all, e, now).0;
        let armed = RecoveryView { pto_count: 0, ..told }.with_timer(hs, now);
        lemma_drain_tally(armed.space(e), armed.path.spec_rtt(), now);
    }
}

/// The expiry of the timer keeps the packets in order.
pub proof fn lemma_timeout_keeps_order<C: CongestionControlOps>(
    m: RecoveryView<C>,
    hs: HandshakeStatus,
    now: Instant,
)
    requires
        m.ordered(),
    ensures
        m.after_timeout(hs, now).ordered(),
{
    lemma_loss_keeps_order(m, m.loss_deadline().1, now);
}

/// Dropping the keys of a space keeps the packets of the others in order and
/// leaves none in that space.
pub proof fn lemma_discard_keeps_order<C: CongestionControlOps>(
    m: RecoveryView<C>,
    e: Epoch,
    hs: HandshakeStatus,
    now: Instant,
)
    requires
        m.ordered(),
    ensures
        m.after_discard(e, hs, now).ordered(),
        m.after_discard(e, hs, now).space(e).sent.len() == 0,
{
}

/// Putting a packet in flight leaves the lists of packets alone.
pub(crate) proof fn lemma_departure_keeps_lists<C: CongestionControlOps>(
    m: RecoveryView<C>,
    pkt: SentView,
    e: Epoch,
    hs: HandshakeStatus,
    now: Instant,
)
    requires
        m.spaces.len() == 3,
    ensures
        m.with_departed(pkt, e, hs, now).same_list(m),
        m.with_departed(pkt, e, hs, now).spaces.len() == 3,
{
    let counted = m.with_sent_counted(pkt.pkt_num, pkt.ack_eliciting, e);
    assert(counted.same_list(m));
    if pkt.in_flight {
        let flying = counted.with_in_flight(pkt.size, pkt.ack_eliciting, e, hs, now);
        assert(flying.spaces == counted.with_one_in_flight(pkt.ack_eliciting, e, now).spaces);
        assert(flying.same_list(m));
    }
}

/// Pacing a packet changes nothing but the pacer.
pub(crate) proof fn lemma_pacing_keeps_lists<C: CongestionControlOps>(
    m: RecoveryView<C>,
    size: usize,
    e: Epoch,
    now: Instant,
)
    ensures
        ({
            let w = m.with_pacing_rate(now).with_paced(size, e, now);
            w == m.with_path(CongestionState { pacer: w.path.pacer, ..m.path })
        }),
{
}

/// A packet whose number is larger than those before it keeps the order.
pub proof fn lemma_send_keeps_order<C: CongestionControlOps>(
    m: RecoveryView<C>,
    pkt: SentView,
    e: Epoch,
    hs: HandshakeStatus,
    now: Instant,
)
    requires
        m.ordered(),
        m.space(e).sent.len() > 0 ==> m.space(e).sent.last().pkt_num < pkt.pkt_num,
    ensures
        m.after_sent(pkt, e, hs, now).ordered(),
        m.after_sent(pkt, e, hs, now).space(e).sent.last().pkt_num == pkt.pkt_num,
{
    let departed = m.with_departed(pkt, e, hs, now);
    lemma_departure_keeps_lists(m, pkt, e, hs, now);
    let paced = departed.with_pacing_rate(now).with_paced(pkt.size, e, now);
    lemma_pacing_keeps_lists(departed, pkt.size, e, now);
    let w = paced.with_listed(pkt, e);
    lemma_send_tally(paced.space(e), w.space(e), w.space(e).sent.last());
}

/// A quack keeps the packets in order. Notably, no packet is removed.
pub proof fn lemma_quack_keeps_packets<C: CongestionControlOps>(
    m: RecoveryView<C>,
    acked_ids: Set<u32>,
    missing_ids: Set<u32>,
    now: Instant,
)
    requires
        m.ordered(),
    ensures
        ({
            let w = m.with_quack_applied(acked_ids, missing_ids, now);
            &&& w.ordered()
            &&& w.space(Epoch::Initial) == m.space(Epoch::Initial)
            &&& w.space(Epoch::Handshake) == m.space(Epoch::Handshake)
            &&& w.space(Epoch::Application).sent.len() == m.space(Epoch::Application).sent.len()
        }),
{
    let echoed = m.with_echo(acked_ids, now);
    lemma_echo_tally(m.space(Epoch::Application), acked_ids, now);
    assert(echoed.ordered());
    lemma_miss_tally(echoed.space(Epoch::Application), missing_ids, now);
}

/// Every packet of the list that the ranges hold has been acknowledged.
pub open spec fn all_acked(s: Seq<SentView>, ranges: Seq<PktRange>) -> bool {
    forall|i: int|
        0 <= i < s.len() && listed(ranges, (#[trigger] s[i]).pkt_num) ==> s[i].time_acked is Some
}

/// Once packets are acknowledged, detecting losses leaves that so.
proof fn lemma_loss_keeps_acked<C: CongestionControlOps>(
    m: RecoveryView<C>,
    ranges: Seq<PktRange>,
    e: Epoch,
    now: Instant,
)
    requires
        m.spaces.len() == 3,
        all_acked(m.space(e).sent, ranges),
    ensures
        m.after_loss(e, now).spaces.len() == 3,
        all_acked(m.after_loss(e, now).space(e).sent, ranges),
        m.after_loss(e, now).space(e).largest_acked_pkt == m.space(e).largest_acked_pkt,
{
    let v = m.space(e);
    let w = v.after_loss(now, m.loss_delay(), m.pkt_thresh);
    let o = m.loss_outcome(e, now);
    let marked = m.with_loss_marked(e, now);
    let told = marked.with_loss_told(o, e, now);
    assert(all_acked(w.sent, ranges)) by {
        assert forall|i: int|
            0 <= i < w.sent.len() && listed(ranges, (#[trigger] w.sent[i]).pkt_num) implies
            w.sent[i].time_acked is Some by {
            assert(v.sent[i].pkt_num == w.sent[i].pkt_num);
        }
    }
    lemma_drain_keeps_acked(w, ranges, told.path.spec_rtt(), now);
}

proof fn lemma_drain_keeps_acked(
    v: SpaceView,
    ranges: Seq<PktRange>,
    rtt: Duration,
    now: Instant,
)
    requires
        all_acked(v.sent, ranges),
    ensures
        all_acked(v.drained(rtt, now).sent, ranges),
{
    lemma_drain_tally(v, rtt, now);
    let w = v.drained(rtt, now);
    let n = first_index(0, v.sent.len() as int, remembered(v.sent, rtt, now));
    assert forall|i: int|
        0 <= i < w.sent.len() && listed(ranges, (#[trigger] w.sent[i]).pkt_num) implies
        w.sent[i].time_acked is Some by {
        assert(w.sent[i] == v.sent[i + n]);
    }
}

/// An ACK frame acknowledges, of the packets that are remembered, all that it
/// lists.
pub proof fn lemma_ack_acks<C: CongestionControlOps>(
    m: RecoveryView<C>,
    ranges: Seq<PktRange>,
    ack_delay: u64,
    e: Epoch,
    hs: HandshakeStatus,
    now: Instant,
    newly_acked: Seq<Acked>,
)
    requires
        m.spaces.len() == 3,
        ranges.len() > 0,
    ensures
        ({
            let w = m.after_ack(ranges, ack_delay, e, hs, now, newly_acked).0;
            &&& w.spaces.len() == 3
            &&& all_acked(w.space(e).sent, ranges)
            &&& w.space(e).largest_acked_pkt == m.with_largest_acked(
                e,
                (ranges.last().end - 1) as u64,
            ).space(e).largest_acked_pkt
        }),
{
    let largest = (ranges.last().end - 1) as u64;
    let raised = m.with_largest_acked(e, largest);
    let o = raised.ack_outcome(ranges, e, now);
    let marked = raised.with_ack_marked(ranges, e, now).with_rollback(o.undo_cwnd);
    let s = raised.space(e).sent;
    assert(all_acked(marked.space(e).sent, ranges)) by {
        assert forall|i: int|
            0 <= i < marked.space(e).sent.len() && listed(
                ranges,
                (#[trigger] marked.space(e).sent[i]).pkt_num,
            ) implies marked.space(e).sent[i].time_acked is Some by {
            assert(s[i].pkt_num == marked.space(e).sent[i].pkt_num);
        }
    }
    if o.acked {
        let timed = marked.with_ack_timed(o, largest, ack_delay, e, now);
        assert(timed.spaces == marked.spaces);
        lemma_loss_keeps_acked(timed, ranges, e, now);
        let all = newly_acked + records(pick(s, fresh(s, ranges)), now);
        let told = timed.after_loss(e, now).after_acked(all, e, now).0;
        let armed = RecoveryView { pto_count: 0, ..told }.with_timer(hs, now);
        lemma_drain_keeps_acked(armed.space(e), ranges, armed.path.spec_rtt(), now);
    }
}

/// An ACK frame that acknowledges nothing new changes nothing and loses
/// nothing.
pub proof fn lemma_stale_ack<C: CongestionControlOps>(
    m: RecoveryView<C>,
    ranges: Seq<PktRange>,
    ack_delay: u64,
    e: Epoch,
    hs: HandshakeStatus,
    now: Instant,
    newly_acked: Seq<Acked>,
)
    requires
        m.spaces.len() == 3,
        all_acked(m.space(e).sent, ranges),
        m.space(e).largest_acked_pkt < u64::MAX,
        ranges.last().end - 1 <= m.space(e).largest_acked_pkt,
        ranges.last().end > 0,
    ensures
        m.after_ack(ranges, ack_delay, e, hs, now, newly_acked) == (m, newly_acked, (0usize, 0usize)),
{
    let s = m.space(e).sent;
    let n = s.len() as int;
    let largest = (ranges.last().end - 1) as u64;
    assert(m.with_largest_acked(e, largest) =~= m);
    assert(forall|i: int| 0 <= i < n ==> !hit(ranges, #[trigger] s[i]));
    let delay = m.reorder_delay();
    lemma_count_skip(hits(s, ranges), 0, n);
    lemma_count_skip(spurious(s, ranges), 0, n);
    lemma_count_skip(spurious_in_flight(s, ranges), 0, n);
    lemma_count_skip(late(s, ranges, now, delay), 0, n);
    lemma_count_skip(fresh_in_flight(s, ranges), 0, n);
    lemma_pick_skip(s, spurious(s, ranges), 0, n);
    lemma_pick_skip(s, fresh(s, ranges), 0, n);
    assert(s.take(n) =~= s);
    assert(s.take(0) =~= Seq::empty());
    assert(pick(s, fresh(s, ranges)) =~= Seq::empty());
    let none = Seq::<SentView>::empty();
    assert(newly_acked + records(none, now) =~= newly_acked);
    assert(m.space(e).acked + frames_in(none) =~= m.space(e).acked);
    assert(m.space(e).after_ack(ranges, now) =~= m.space(e));
    assert(m.with_ack_marked(ranges, e, now) =~= m);
}

/// An ACK frame that arrives twice does nothing the second time.
pub proof fn lemma_repeated_ack<C: CongestionControlOps>(
    m: RecoveryView<C>,
    ranges: Seq<PktRange>,
    ack_delay: u64,
    e: Epoch,
    hs: HandshakeStatus,
    now: Instant,
    newly_acked: Seq<Acked>,
    later: Instant,
)
    requires
        m.spaces.len() == 3,
        ranges.len() > 0,
        ranges.last().start < ranges.last().end,
    ensures
        ({
            let w = m.after_ack(ranges, ack_delay, e, hs, now, newly_acked).0;
            w.after_ack(ranges, ack_delay, e, hs, later, Seq::empty()) == (
                w,
                Seq::<Acked>::empty(),
                (0usize, 0usize),
            )
        }),
{
    let w = m.after_ack(ranges, ack_delay, e, hs, now, newly_acked).0;
    lemma_ack_acks(m, ranges, ack_delay, e, hs, now, newly_acked);
    lemma_stale_ack(w, ranges, ack_delay, e, hs, later, Seq::empty());
}

/// The thresholds only grow, the packet threshold up to its limit and the time
/// threshold to its raised value.
pub proof fn lemma_thresholds_grow<C: CongestionControlOps>(
    m: RecoveryView<C>,
    ranges: Seq<PktRange>,
    e: Epoch,
    now: Instant,
)
    requires
        m.time_thresh <= RAISED_TIME_THRESHOLD,
    ensures
        ({
            let o = m.ack_outcome(ranges, e, now);
            &&& m.pkt_thresh <= o.pkt_thresh
            &&& o.pkt_thresh == m.pkt_thresh || o.pkt_thresh
                <= MAX_PACKET_THRESHOLD
            &&& m.time_thresh <= o.time_thresh <= RAISED_TIME_THRESHOLD
        }),
{
}

/// Loss detection leaves no packet that is overdue: the time at which the next
/// one will be lost lies ahead. When it has come, and the thresholds are as
/// they were, a packet is lost.
pub proof fn lemma_loss_timer(
    v: SpaceView,
    now: Instant,
    delay: Duration,
    pkt_thresh: u64,
    later: Instant,
)
    requires
        v.wf(),
        v.sent.len() <= usize::MAX,
        delay.nanos <= 0x8000_0000_0000_0000_0000_0000,
        v.after_loss(now, delay, pkt_thresh).loss_time matches Some(t) && t.nanos
            <= later.nanos,
    ensures
        v.after_loss(now, delay, pkt_thresh).loss_time matches Some(t) && now.nanos < t.nanos,
        v.after_loss(now, delay, pkt_thresh).loss_outcome(later, delay, pkt_thresh).lost_packets
            > 0,
{
    let w = v.after_loss(now, delay, pkt_thresh);
    let len = v.sent.len() as int;
    let stop = search_ends(v.sent, v.largest_acked_pkt, now, delay, pkt_thresh);
    let n = v.search_end(now, delay, pkt_thresh);
    lemma_first_index(0, len, stop);
    assert(stop(n));
    assert(v.sent[n].wf());
    let again = search_ends(w.sent, w.largest_acked_pkt, later, delay, pkt_thresh);
    let k = w.search_end(later, delay, pkt_thresh);
    lemma_first_index(0, len, again);
    if k <= n {
        assert(again(k));
        if k < n {
            assert(!stop(k));
        }
    }
    lemma_count_some(k, outstanding_before(w.sent, k), n);
    lemma_count_bound(k, outstanding_before(w.sent, k));
}

/// What is forgotten at one time is all that there is to forget then.
proof fn lemma_drain_twice(v: SpaceView, rtt: Duration, now: Instant)
    ensures
        v.drained(rtt, now).drained(rtt, now) == v.drained(rtt, now),
{
    let w = v.drained(rtt, now);
    let keep = remembered(v.sent, rtt, now);
    let n = first_index(0, v.sent.len() as int, keep);
    lemma_first_index(0, v.sent.len() as int, keep);
    if n < v.sent.len() {
        assert(w.sent[0] == v.sent[n]);
        assert(remembered(w.sent, rtt, now)(0));
    }
    assert(w.sent.skip(0) =~= w.sent);
}

/// Of a list in order, what is lost at one time is all that is lost then.
proof fn lemma_space_loss_twice(
    v: SpaceView,
    now: Instant,
    delay: Duration,
    pkt_thresh: u64,
    rtt: Duration,
)
    requires
        in_order(v.sent),
    ensures
        ({
            let w = v.after_loss(now, delay, pkt_thresh).drained(rtt, now);
            let o = w.loss_outcome(now, delay, pkt_thresh);
            &&& o.lost_packets == 0
            &&& o.lost_bytes == 0
            &&& o.largest_lost_pkt is None
            &&& w.after_loss(now, delay, pkt_thresh) == w
        }),
{
    let len = v.sent.len() as int;
    let largest = v.largest_acked_pkt;
    let stop = search_ends(v.sent, largest, now, delay, pkt_thresh);
    let n = v.search_end(now, delay, pkt_thresh);
    lemma_first_index(0, len, stop);
    let marked = v.after_loss(now, delay, pkt_thresh);
    let keep = remembered(marked.sent, rtt, now);
    let d = first_index(0, len, keep);
    lemma_first_index(0, len, keep);
    let w = marked.drained(rtt, now);
    let again = search_ends(w.sent, largest, now, delay, pkt_thresh);
    let k = w.search_end(now, delay, pkt_thresh);
    lemma_first_index(0, w.sent.len() as int, again);
    let next = n < len && v.sent[n].pkt_num <= largest;
    if next {
        // The packet that is lost next is outstanding, so it is remembered.
        assert(stop(n));
        assert(keep(n));
        assert(d <= n);
        assert(w.sent[n - d] == v.sent[n]);
        assert(again(n - d));
    }
    assert forall|i: int| 0 <= i < w.sent.len() && i + d < n implies !(#[trigger] again(i))
        && !w.sent[i].outstanding() by {
        assert(w.sent[i] == marked.sent[i + d]);
        assert(!stop(i + d));
    }
    assert forall|i: int| 0 <= i < w.sent.len() && i + d >= n && !next implies #[trigger] again(
        i,
    ) && w.sent[i].pkt_num > largest by {
        assert(w.sent[i] == marked.sent[i + d]);
        assert(stop(n));
        if i + d > n {
            assert(v.sent[n].pkt_num < v.sent[i + d].pkt_num);
        }
    }
    assert forall|i: int| 0 <= i < k implies !(#[trigger] w.sent[i]).outstanding() by {
        assert(!again(i));
        assert(i + d < n);
    }
    let gone = outstanding_before(w.sent, k);
    let flew = in_flight_before(w.sent, k);
    let none = Seq::<SentView>::empty();
    lemma_count_skip(gone, 0, k);
    lemma_count_skip(flew, 0, k);
    lemma_pick_skip(w.sent, gone, 0, k);
    lemma_pick_skip(w.sent, flew, 0, k);
    lemma_bytes_none(w.sent, flew, 0, k);
    assert(w.sent.take(0) =~= none);
    assert(w.lost + frames_in(none) =~= w.lost);
    if next {
        assert(k == n - d);
    } else if k < w.sent.len() {
        assert(again(k));
        assert(k + d >= n);
    }
    assert(w.after_loss(now, delay, pkt_thresh) =~= w);
}

/// Detecting losses twice at one time does nothing the second time, as long as
/// the algorithm leaves the RTT alone when it is told of a loss.
pub proof fn lemma_loss_twice<C: CongestionControlOps>(
    m: RecoveryView<C>,
    e: Epoch,
    now: Instant,
)
    requires
        m.spaces.len() == 3,
        in_order(m.space(e).sent),
        m.after_loss(e, now).path.latest_rtt == m.path.latest_rtt,
        m.after_loss(e, now).path.smoothed_rtt == m.path.smoothed_rtt,
    ensures
        ({
            let w = m.after_loss(e, now);
            let o = w.loss_outcome(e, now);
            &&& o.lost_packets == 0
            &&& o.lost_bytes == 0
            &&& o.largest_lost_pkt is None
            &&& w.after_loss(e, now) == w
        }),
{
    let v = m.space(e);
    let delay = m.loss_delay();
    let rtt = m.path.spec_rtt();
    let w = m.after_loss(e, now);
    let marked = v.after_loss(now, delay, m.pkt_thresh);
    assert(w.space(e) == marked.drained(rtt, now));
    assert(w.loss_delay() == delay);
    lemma_space_loss_twice(v, now, delay, m.pkt_thresh, rtt);
    lemma_drain_twice(marked, rtt, now);
    assert(w.after_loss(e, now) =~= w);
}

/// With Reno, detecting losses twice at one time does nothing the second time.
pub proof fn lemma_reno_loss_twice(m: RecoveryView<Reno>, e: Epoch, now: Instant)
    requires
        m.spaces.len() == 3,
        in_order(m.space(e).sent),
    ensures
        ({
            let w = m.after_loss(e, now);
            let o = w.loss_outcome(e, now);
            &&& o.lost_packets == 0
            &&& o.lost_bytes == 0
            &&& o.largest_lost_pkt is None
            &&& w.after_loss(e, now) == w
        }),
{
    lemma_loss_twice(m, e, now);
}

/// So it is where a connection has chosen Reno.
pub proof fn lemma_chosen_reno_loss_twice<U: CongestionControlOps, B: CongestionControlOps>(
    m: RecoveryView<CongestionControl<U, B>>,
    e: Epoch,
    now: Instant,
)
    requires
        m.spaces.len() == 3,
        in_order(m.space(e).sent),
        m.cc_ops is Reno,
    ensures
        ({
            let w = m.after_loss(e, now);
            let o = w.loss_outcome(e, now);
            &&& o.lost_packets == 0
            &&& o.lost_bytes == 0
            &&& o.largest_lost_pkt is None
            &&& w.after_loss(e, now) == w
        }),
{
    lemma_loss_twice(m, e, now);
}

/// A packet that has been acknowledged, or declared lost, is not declared lost
/// again.
pub proof fn lemma_loss_once(v: SpaceView, now: Instant, delay: Duration, pkt_thresh: u64, i: int)
    requires
        0 <= i < v.sent.len(),
        !v.sent[i].outstanding(),
    ensures
        v.after_loss(now, delay, pkt_thresh).sent[i] == v.sent[i],
{
}

/// Forgetting packets never forgets one that is outstanding, nor one that was
/// declared lost less than an RTT ago.
pub proof fn lemma_drain_remembers(v: SpaceView, rtt: Duration, now: Instant, i: int)
    requires
        0 <= i < v.sent.len(),
        v.sent[i].outstanding() || (v.sent[i].time_lost matches Some(t) && t.nanos + rtt.nanos
            > now.nanos),
    ensures
        v.drained(rtt, now).sent.contains(v.sent[i]),
{
    let keep = remembered(v.sent, rtt, now);
    let n = first_index(0, v.sent.len() as int, keep);
    lemma_first_index(0, v.sent.len() as int, keep);
    assert(keep(i));
    assert(v.drained(rtt, now).sent[i - n] == v.sent[i]);
}

/// When the timer expires and no packet is overdue, data is sent again without
/// any packet being declared lost: there is no effect on congestion control.
pub proof fn lemma_probe_loses_nothing<C: CongestionControlOps>(
    m: RecoveryView<C>,
    hs: HandshakeStatus,
    now: Instant,
    e: Epoch,
)
    requires
        m.spaces.len() == 3,
        m.pto_count < MAX_PTO_COUNT,
        m.loss_deadline().0 is None,
    ensures
        ({
            let w = m.after_timeout(hs, now);
            &&& m.timeout_losses(now) == (0usize, 0usize)
            &&& w.space(e).sent == m.space(e).sent
            &&& w.space(e).acked == m.space(e).acked
            &&& w.path == m.path
            &&& w.cc_ops == m.cc_ops
            &&& w.lost_count == m.lost_count
            &&& w.bytes_lost == m.bytes_lost
            &&& w.pto_count == m.pto_count + 1
            &&& 1 <= w.space(m.probe_space(hs, now)).loss_probes <= MAX_PTO_PROBES_COUNT
        }),
{
}

/// Each expiry of the probe timer doubles the wait for the next one.
pub proof fn lemma_backoff_doubles<C: CongestionControlOps>(m: RecoveryView<C>, n: RecoveryView<C>)
    requires
        m.pto_count < MAX_PTO_COUNT,
        n.pto_count == m.pto_count + 1,
    ensures
        n.backoff() == 2 * m.backoff(),
{
    lemma_pow2_unfold(n.pto_count as nat);
}

/// An acknowledgement of something new ends the backoff.
pub proof fn lemma_ack_ends_backoff<C: CongestionControlOps>(
    m: RecoveryView<C>,
    ranges: Seq<PktRange>,
    ack_delay: u64,
    e: Epoch,
    hs: HandshakeStatus,
    now: Instant,
    newly_acked: Seq<Acked>,
)
    requires
        m.with_largest_acked(e, (ranges.last().end - 1) as u64).ack_outcome(
            ranges,
            e,
            now,
        ).acked,
    ensures
        m.after_ack(ranges, ack_delay, e, hs, now, newly_acked).0.pto_count == 0,
{
}

/// The deadline of loss detection is the earliest loss time of all spaces, as
/// long as no space without a loss time follows one that has one.
pub proof fn lemma_earliest_loss_time<C: CongestionControlOps>(m: RecoveryView<C>, e: Epoch)
    requires
        m.spaces.len() == 3,
        m.spaces[0].loss_time is Some ==> m.spaces[1].loss_time is Some,
        m.spaces[1].loss_time is Some ==> m.spaces[2].loss_time is Some,
    ensures
        ({
            let (time, first) = m.loss_deadline();
            &&& m.space(e).loss_time is Some ==> time is Some && time->0.nanos
                <= m.space(e).loss_time->0.nanos
            &&& time is Some ==> time == m.space(first).loss_time
        }),
{
}

/// Once the figures are reported, there is nothing to report until they
/// change.
pub proof fn lemma_reported_once<C: CongestionControlOps>(m: RecoveryView<C>)
    ensures
        ({
            let w = RecoveryView { qlog_metrics: m.metrics(), ..m };
            w.qlog_metrics == w.metrics()
        }),
{
}

/// The datagram size never grows. The window follows it as long as it is the
/// initial one, and nothing else changes but the pacer.
pub proof fn lemma_datagram_size_shrinks<C: CongestionControlOps>(
    m: RecoveryView<C>,
    new_size: usize,
    now: Instant,
)
    requires
        m.path.max_datagram_size * INITIAL_WINDOW_PACKETS <= usize::MAX,
    ensures
        ({
            let w = m.with_max_datagram_size(new_size, now);
            let size = if new_size < m.path.max_datagram_size {
                new_size
            } else {
                m.path.max_datagram_size
            };
            &&& w.path.max_datagram_size == size
            &&& w.path.congestion_window == if m.path.congestion_window
                == m.path.max_datagram_size * INITIAL_WINDOW_PACKETS {
                size * INITIAL_WINDOW_PACKETS
            } else {
                m.path.congestion_window as int
            }
            &&& w == m.with_path(
                CongestionState {
                    max_datagram_size: w.path.max_datagram_size,
                    congestion_window: w.path.congestion_window,
                    pacer: w.path.pacer,
                    ..m.path
                },
            )
        }),
{
}

/// Setting the same datagram size again, or a larger one, changes neither the
/// size nor the window.
pub proof fn lemma_datagram_size_settles<C: CongestionControlOps>(
    m: RecoveryView<C>,
    new_size: usize,
    now: Instant,
    other_size: usize,
    later: Instant,
)
    requires
        m.path.max_datagram_size * INITIAL_WINDOW_PACKETS <= usize::MAX,
        new_size <= other_size,
    ensures
        ({
            let w = m.with_max_datagram_size(new_size, now);
            let z = w.with_max_datagram_size(other_size, later);
            &&& z.path.max_datagram_size == w.path.max_datagram_size
            &&& z.path.congestion_window == w.path.congestion_window
        }),
{
}

/// A quack that has not changed since the last one is ignored.
pub proof fn lemma_repeated_quack<C: CongestionControlOps>(
    m: RecoveryView<C>,
    count: u32,
    last_value: u32,
    other: u32,
)
    requires
        count != 0,
    ensures
        m.after_quack(count, last_value).quack_action(count, other) is Ignore,
        m.after_quack(count, last_value).after_quack(count, other) == m.after_quack(
            count,
            last_value,
        ),
{
}

/// What was lost was sent before: no more bytes are lost than were sent, and
/// the packets that are still to be lost are among the rest.
pub proof fn lemma_lost_was_sent<C: CongestionControlOps>(m: RecoveryView<C>)
    requires
        m.wf(),
    ensures
        m.bytes_lost <= m.bytes_sent,
        m.unlost_bytes() <= m.bytes_sent - m.bytes_lost,
{
}

/// Detecting losses moves packets from those that are not lost to the lost
/// ones, each at most once, and forgets only packets that are settled.
pub proof fn lemma_loss_counts<C: CongestionControlOps>(
    m: RecoveryView<C>,
    e: Epoch,
    now: Instant,
)
    requires
        m.wf(),
        m.space(e).sent.len() <= usize::MAX,
    ensures
        ({
            let w = m.after_loss(e, now);
            let o = m.loss_outcome(e, now);
            &&& w.lost_count == m.lost_count + o.lost_packets
            &&& w.bytes_lost == m.bytes_lost + o.lost_bytes
            &&& w.unlost_count() + o.lost_packets <= m.unlost_count()
            &&& w.unlost_bytes() + o.lost_bytes <= m.unlost_bytes()
        }),
{
    let v = m.space(e);
    lemma_loss_tally(v, now, m.loss_delay(), m.pkt_thresh);
    let w = v.after_loss(now, m.loss_delay(), m.pkt_thresh);
    let o = m.loss_outcome(e, now);
    let marked = m.with_loss_marked(e, now);
    let told = marked.with_loss_told(o, e, now);
    lemma_drain_tally(w, told.path.spec_rtt(), now);
}

/// A packet that is sent, with where and when.
#[verifier::ext_equal]
pub struct Sending {
    pub pkt: SentView,
    pub epoch: Epoch,
    pub handshake_status: HandshakeStatus,
    pub now: Instant,
}

/// The state once packets have been sent, in order.
pub open spec fn after_all_sent<C: CongestionControlOps>(
    m: RecoveryView<C>,
    sends: Seq<Sending>,
) -> RecoveryView<C>
    decreases sends.len(),
{
    if sends.len() == 0 {
        m
    } else {
        let s = sends.last();
        after_all_sent(m, sends.drop_last()).after_sent(
            s.pkt,
            s.epoch,
            s.handshake_status,
            s.now,
        )
    }
}

/// How many of the packets at the end elicit nothing.
pub open spec fn silent_tail(sends: Seq<Sending>) -> nat
    decreases sends.len(),
{
    if sends.len() == 0 || sends.last().pkt.ack_eliciting {
        0
    } else {
        silent_tail(sends.drop_last()) + 1
    }
}

/// A packet that is sent leaves the number of probes alone, and the count of
/// packets in a row that elicit nothing goes up by one or back to zero.
proof fn lemma_send_counts<C: CongestionControlOps>(
    m: RecoveryView<C>,
    pkt: SentView,
    e: Epoch,
    hs: HandshakeStatus,
    now: Instant,
    other: Epoch,
)
    requires
        m.spaces.len() == 3,
        m.outstanding_non_ack_eliciting < usize::MAX,
    ensures
        ({
            let w = m.after_sent(pkt, e, hs, now);
            &&& w.spaces.len() == 3
            &&& w.space(other).loss_probes == m.space(other).loss_probes
            &&& w.outstanding_non_ack_eliciting == if pkt.ack_eliciting {
                0
            } else {
                m.outstanding_non_ack_eliciting + 1
            }
        }),
{
    let counted = m.with_sent_counted(pkt.pkt_num, pkt.ack_eliciting, e);
    let departed = m.with_departed(pkt, e, hs, now);
    assert(departed.outstanding_non_ack_eliciting == counted.outstanding_non_ack_eliciting);
    assert(departed.space(other).loss_probes == m.space(other).loss_probes);
    let paced = departed.with_pacing_rate(now).with_paced(pkt.size, e, now);
    lemma_pacing_keeps_lists(departed, pkt.size, e, now);
    assert(paced.space(other) == departed.space(other));
}

/// A packet that elicits an acknowledgement should be sent exactly if probes
/// are due or if at least the last 24 packets in a row elicited nothing.
///
/// The packets are counted from a state in which none is outstanding, such as
/// that of a new path. In it, if `k` packets that elicit nothing follow one
/// that does, or follow none, the count is `k`.
pub proof fn lemma_silent_packets<C: CongestionControlOps>(
    m: RecoveryView<C>,
    sends: Seq<Sending>,
    e: Epoch,
)
    requires
        m.spaces.len() == 3,
        m.outstanding_non_ack_eliciting == 0,
        sends.len() <= usize::MAX,
    ensures
        ({
            let w = after_all_sent(m, sends);
            &&& w.spaces.len() == 3
            &&& w.space(e).loss_probes == m.space(e).loss_probes
            &&& w.outstanding_non_ack_eliciting == silent_tail(sends)
            &&& silent_tail(sends) <= sends.len()
            &&& w.elicits(e) <==> m.space(e).loss_probes > 0 || silent_tail(sends) >= 24
        }),
    decreases sends.len(),
{
    if sends.len() > 0 {
        let s = sends.last();
        let front = after_all_sent(m, sends.drop_last());
        lemma_silent_packets(m, sends.drop_last(), e);
        lemma_send_counts(front, s.pkt, s.epoch, s.handshake_status, s.now, e);
    }
}

/// After a packet that elicits an acknowledgement, `k` packets that elicit
/// nothing make a count of `k`, whatever was sent before.
pub proof fn lemma_silent_run<C: CongestionControlOps>(
    m: RecoveryView<C>,
    first: Sending,
    sends: Seq<Sending>,
    e: Epoch,
)
    requires
        m.spaces.len() == 3,
        m.outstanding_non_ack_eliciting < usize::MAX,
        first.pkt.ack_eliciting,
        forall|i: int| 0 <= i < sends.len() ==> !(#[trigger] sends[i]).pkt.ack_eliciting,
        sends.len() <= usize::MAX,
    ensures
        ({
            let start = m.after_sent(
                first.pkt,
                first.epoch,
                first.handshake_status,
                first.now,
            );
            let w = after_all_sent(start, sends);
            &&& w.outstanding_non_ack_eliciting == sends.len()
            &&& w.elicits(e) <==> m.space(e).loss_probes > 0 || sends.len() >= 24
        }),
{
    let start = m.after_sent(first.pkt, first.epoch, first.handshake_status, first.now);
    lemma_send_counts(m, first.pkt, first.epoch, first.handshake_status, first.now, e);
    lemma_silent_packets(start, sends, e);
    lemma_all_silent(sends);
}

proof fn lemma_all_silent(sends: Seq<Sending>)
    requires
        forall|i: int| 0 <= i < sends.len() ==> !(#[trigger] sends[i]).pkt.ack_eliciting,
    ensures
        silent_tail(sends) == sends.len(),
    decreases sends.len(),
{
    if sends.len() > 0 {
        assert(!sends[sends.len() - 1].pkt.ack_eliciting);
        assert forall|i: int| 0 <= i < sends.drop_last().len() implies !(
        #[trigger] sends.drop_last()[i]).pkt.ack_eliciting by {
            assert(!sends[i].pkt.ack_eliciting);
        }
        lemma_all_silent(sends.drop_last());
    }
}

/// Only sending counts packets that elicit nothing.
pub proof fn lemma_silence_kept<C: CongestionControlOps>(
    m: RecoveryView<C>,
    ranges: Seq<PktRange>,
    ack_delay: u64,
    e: Epoch,
    hs: HandshakeStatus,
    now: Instant,
    newly_acked: Seq<Acked>,
    acked_ids: Set<u32>,
    missing_ids: Set<u32>,
)
    ensures
        m.after_ack(ranges, ack_delay, e, hs, now, newly_acked).0.outstanding_non_ack_eliciting
            == m.outstanding_non_ack_eliciting,
        m.after_loss(e, now).outstanding_non_ack_eliciting == m.outstanding_non_ack_eliciting,
        m.after_timeout(hs, now).outstanding_non_ack_eliciting
            == m.outstanding_non_ack_eliciting,
        m.after_discard(e, hs, now).outstanding_non_ack_eliciting
            == m.outstanding_non_ack_eliciting,
        m.with_quack_applied(acked_ids, missing_ids, now).outstanding_non_ack_eliciting
            == m.outstanding_non_ack_eliciting,
        m.after_reset().outstanding_non_ack_eliciting == m.outstanding_non_ack_eliciting,
{
}

} // verus!
