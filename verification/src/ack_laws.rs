//! Which packets an ACK frame acknowledges and what follows from it, in terms
//! of the fields of the packets.
use vstd::prelude::*;

use crate::congestion::CongestionControlOps;
use crate::congestion::CongestionState;
use crate::delivery_rate::Rate;
use crate::delivery_rate::RateSample;
use crate::lists::count;
use crate::lists::frames_in;
use crate::lists::lemma_count_some;
use crate::lists::less;
use crate::lists::pick;
use crate::lists::records;
use crate::loss_laws::lemma_pick_last;
use crate::loss_laws::lemma_pick_none;
use crate::loss_laws::lemma_pick_same;
use crate::model::HandshakeStatus;
use crate::model::RecoveryView;
use crate::packet::Epoch;
use crate::ranges::ascending;
use crate::ranges::listed;
use crate::ranges::PktRange;
use crate::reno::all_acked;
use crate::reno::one_acked;
use crate::reno::Reno;
use crate::sent::Acked;
use crate::sent::SentView;
use crate::space::ack_outcome;
use crate::space::eliciting;
use crate::space::fresh;
use crate::space::fresh_in_flight;
use crate::space::hits;
use crate::space::in_order;
use crate::space::late;
use crate::space::regular;
use crate::space::spurious;
use crate::space::spurious_in_flight;
use crate::space::AckOutcome;
use crate::space::SpaceView;
use crate::tally::lemma_count_same;
use crate::time::Duration;
use crate::time::Instant;

verus! {

/// A packet number is listed if it lies in one of the ranges, which do not
/// reach up to their ends.
pub proof fn lemma_listed(ranges: Seq<PktRange>, n: u64)
    ensures
        listed(ranges, n) <==> exists|k: int|
            0 <= k < ranges.len() && (#[trigger] ranges[k]).start <= n < ranges[k].end,
{
    if listed(ranges, n) {
        let k = choose|k: int| 0 <= k < ranges.len() && (#[trigger] ranges[k]).has(n);
        assert(ranges[k].start <= n < ranges[k].end);
    }
    if exists|k: int| 0 <= k < ranges.len() && (#[trigger] ranges[k]).start <= n < ranges[k].end {
        let k = choose|k: int|
            0 <= k < ranges.len() && (#[trigger] ranges[k]).start <= n < ranges[k].end;
        assert(ranges[k].has(n));
    }
}

/// The packets that the ranges list are acknowledged, unless they were before.
/// Those that had been neither declared lost nor received by the proxy hand
/// their frames on and are no longer in flight. Nothing else changes.
pub proof fn lemma_who_is_acked(
    v: SpaceView,
    ranges: Seq<PktRange>,
    now: Instant,
    keep: spec_fn(int) -> bool,
    keep_in_flight: spec_fn(int) -> bool,
)
    requires
        forall|i: int| #[trigger]
            keep(i) <==> listed(ranges, v.sent[i].pkt_num) && v.sent[i].time_acked is None
                && v.sent[i].time_lost is None && v.sent[i].time_acked_sidecar is None,
        forall|i: int| #[trigger] keep_in_flight(i) <==> keep(i) && v.sent[i].in_flight,
    ensures
        ({
            let w = v.after_ack(ranges, now);
            &&& w.sent.len() == v.sent.len()
            &&& forall|i: int|
                0 <= i < v.sent.len() && listed(ranges, (#[trigger] v.sent[i]).pkt_num)
                    && v.sent[i].time_acked is None ==> w.sent[i].time_acked == Some(now)
                    && w.sent[i] == (SentView {
                    time_acked: Some(now),
                    frames: w.sent[i].frames,
                    ..v.sent[i]
                })
            &&& forall|i: int|
                0 <= i < v.sent.len() && !(listed(ranges, (#[trigger] v.sent[i]).pkt_num)
                    && v.sent[i].time_acked is None) ==> w.sent[i] == v.sent[i]
            &&& forall|i: int|
                0 <= i < v.sent.len() && #[trigger] keep(i) ==> w.sent[i].frames.len() == 0
            &&& forall|i: int|
                0 <= i < v.sent.len() && !#[trigger] keep(i) ==> w.sent[i].frames
                    == v.sent[i].frames
            &&& w.acked == v.acked + frames_in(pick(v.sent, keep))
            &&& w.in_flight_count == less(
                v.in_flight_count,
                count(v.sent.len() as int, keep_in_flight) as int,
            )
            &&& w == (SpaceView {
                sent: w.sent,
                acked: w.acked,
                in_flight_count: w.in_flight_count,
                ..v
            })
        }),
{
    lemma_pick_same(v.sent, fresh(v.sent, ranges), keep);
    lemma_count_same(v.sent.len() as int, fresh_in_flight(v.sent, ranges), keep_in_flight);
    let w = v.after_ack(ranges, now);
    assert forall|i: int| 0 <= i < v.sent.len() && !#[trigger] keep(i) implies w.sent[i].frames
        == v.sent[i].frames by {
        let p = v.sent[i];
    }
    assert forall|i: int| 0 <= i < v.sent.len() && #[trigger] keep(i) implies
        w.sent[i].frames.len() == 0 by {
        let p = v.sent[i];
    }
}

/// Whether a count is zero.
proof fn lemma_counted(n: int, keep: spec_fn(int) -> bool)
    requires
        n >= 0,
    ensures
        count(n, keep) > 0 <==> exists|i: int| 0 <= i < n && #[trigger] keep(i),
    decreases n,
{
    if n > 0 {
        lemma_counted(n - 1, keep);
        assert(keep(n - 1) ==> 0 <= n - 1 < n);
        if exists|i: int| 0 <= i < n && #[trigger] keep(i) {
            let i = choose|i: int| 0 <= i < n && #[trigger] keep(i);
            lemma_count_some(n, keep, i);
        }
    }
}

/// What an ACK frame shows. `hit` are the packets that it acknowledges for the
/// first time.
///
/// The number and the send time of the last of them that had not been declared
/// lost are noted, and whether some of those elicits an acknowledgement. Those
/// that had been declared lost are counted. The packet threshold is raised so
/// that none of them would be lost again, within the limit, and the time
/// threshold if one of them is older than `delay`. A loss is undone if one of
/// them is in flight.
pub proof fn lemma_ack_shows(
    s: Seq<SentView>,
    ranges: Seq<PktRange>,
    now: Instant,
    delay: Duration,
    largest_acked: u64,
    pkt_thresh: u64,
    time_thresh: u32,
    hit: spec_fn(int) -> bool,
    back: spec_fn(int) -> bool,
)
    requires
        s.len() <= usize::MAX,
        in_order(s),
        now.in_range(),
        forall|i: int| 0 <= i < s.len() ==> (#[trigger] s[i]).wf(),
        forall|i: int| #[trigger]
            hit(i) <==> listed(ranges, s[i].pkt_num) && s[i].time_acked is None,
        forall|i: int| #[trigger] back(i) <==> hit(i) && s[i].time_lost is Some,
        forall|i: int| 0 <= i < s.len() && #[trigger] hit(i) ==> s[i].pkt_num <= largest_acked,
        largest_acked < u64::MAX,
    ensures
        ({
            let n = s.len() as int;
            let o = ack_outcome(
                s,
                n,
                ranges,
                now,
                delay,
                largest_acked,
                pkt_thresh,
                time_thresh,
            );
            &&& o.acked <==> exists|i: int| 0 <= i < n && #[trigger] hit(i)
            &&& o.undo_cwnd <==> exists|i: int| 0 <= i < n && #[trigger] back(i) && s[i].in_flight
            &&& o.has_ack_eliciting <==> exists|i: int|
                0 <= i < n && #[trigger] hit(i) && s[i].time_lost is None && s[i].ack_eliciting
            &&& o.spurious == count(n, back)
            &&& o.pkt_thresh >= pkt_thresh
            &&& forall|i: int|
                0 <= i < n && #[trigger] back(i) ==> o.pkt_thresh >= 20 || o.pkt_thresh
                    > largest_acked - s[i].pkt_num
            &&& o.pkt_thresh == pkt_thresh || (o.pkt_thresh <= 20 && exists|i: int|
                0 <= i < n && #[trigger] back(i) && o.pkt_thresh <= largest_acked - s[i].pkt_num
                    + 1)
            &&& (exists|i: int|
                0 <= i < n && #[trigger] back(i) && now.nanos - s[i].time_sent.nanos
                    > delay.nanos) ==> o.time_thresh == 10
            &&& !(exists|i: int|
                0 <= i < n && #[trigger] back(i) && now.nanos - s[i].time_sent.nanos
                    > delay.nanos) ==> o.time_thresh == time_thresh
            &&& forall|i: int|
                0 <= i < n && #[trigger] hit(i) && s[i].time_lost is None ==> s[i].pkt_num
                    <= o.largest_newly_acked_pkt_num
            &&& (exists|i: int|
                {
                    &&& 0 <= i < n
                    &&& #[trigger] hit(i)
                    &&& s[i].time_lost is None
                    &&& s[i].pkt_num == o.largest_newly_acked_pkt_num
                    &&& s[i].time_sent == o.largest_newly_acked_sent_time
                }) || (o.largest_newly_acked_pkt_num == 0 && o.largest_newly_acked_sent_time == now
                && forall|i: int| 0 <= i < n ==> !(#[trigger] hit(i) && s[i].time_lost is None))
        }),
{
    let n = s.len() as int;
    assert(s.take(n) =~= s);
    let f_hits = hits(s, ranges);
    let f_sif = spurious_in_flight(s, ranges);
    let f_el = eliciting(s, ranges);
    let f_sp = spurious(s, ranges);
    let f_late = late(s, ranges, now, delay);
    let f_reg = regular(s, ranges);
    let o = ack_outcome(s, n, ranges, now, delay, largest_acked, pkt_thresh, time_thresh);
    lemma_counted(n, f_hits);
    lemma_counted(n, f_sif);
    lemma_counted(n, f_el);
    lemma_counted(n, f_late);
    lemma_count_same(n, f_sp, back);
    crate::lists::lemma_count_bound(n, f_sp);
    assert(forall|i: int| #[trigger] f_hits(i) <==> hit(i));
    assert(forall|i: int| #[trigger] hit(i) <==> f_hits(i));
    assert(forall|i: int| #[trigger] f_sif(i) <==> back(i) && s[i].in_flight);
    assert(forall|i: int| #[trigger] back(i) && s[i].in_flight ==> f_sif(i));
    assert(forall|i: int| #[trigger] f_el(i) ==> hit(i) && s[i].time_lost is None
        && s[i].ack_eliciting);
    assert(forall|i: int| #[trigger] hit(i) && s[i].time_lost is None && s[i].ack_eliciting
        ==> f_el(i));
    assert forall|i: int| 0 <= i < n && #[trigger] f_late(i) implies back(i) && now.nanos
        - s[i].time_sent.nanos > delay.nanos by {
        assert(s[i].wf());
    }
    assert forall|i: int|
        0 <= i < n && #[trigger] back(i) && now.nanos - s[i].time_sent.nanos
            > delay.nanos implies f_late(i) by {
        assert(s[i].wf());
    }
    // The oldest of those that come back asks for the largest threshold.
    let sp = pick(s, f_sp);
    if sp.len() > 0 {
        let k = lemma_pick_first(s, f_sp);
        assert(back(k) && hit(k));
        assert forall|i: int| 0 <= i < n && #[trigger] back(i) implies s[k].pkt_num
            <= s[i].pkt_num by {
            assert(f_sp(i));
            if k < i {
                assert(s[k].pkt_num < s[i].pkt_num);
            }
        }
    } else {
        assert forall|i: int| 0 <= i < n implies !#[trigger] back(i) by {
            lemma_pick_none(s, f_sp, i);
        }
    }
    let acc = pick(s, f_reg);
    if acc.len() > 0 {
        let k = lemma_pick_last(s, f_reg);
        assert(hit(k) && s[k].time_lost is None);
        assert forall|i: int| 0 <= i < n && #[trigger] hit(i) && s[i].time_lost is None implies
            s[i].pkt_num <= s[k].pkt_num by {
            assert(f_reg(i));
            if i < k {
                assert(s[i].pkt_num < s[k].pkt_num);
            }
        }
    } else {
        assert forall|i: int| 0 <= i < n implies !(#[trigger] hit(i) && s[i].time_lost is None) by {
            lemma_pick_none(s, f_reg, i);
        }
    }
}

/// What is selected first stands before everything else that is kept.
proof fn lemma_pick_first(s: Seq<SentView>, keep: spec_fn(int) -> bool) -> (i: int)
    requires
        pick(s, keep).len() > 0,
    ensures
        0 <= i < s.len(),
        keep(i),
        pick(s, keep)[0] == s[i],
        forall|j: int| 0 <= j < i ==> !#[trigger] keep(j),
    decreases s.len(),
{
    let front = s.drop_last();
    if pick(front, keep).len() > 0 {
        lemma_pick_first(front, keep)
    } else {
        assert forall|j: int| 0 <= j < s.len() - 1 implies !#[trigger] keep(j) by {
            lemma_pick_none(front, keep, j);
        }
        s.len() - 1
    }
}

/// The largest acknowledged packet number never falls. It is the largest that
/// an ACK frame has listed.
pub proof fn lemma_largest_acked<C: CongestionControlOps>(
    m: RecoveryView<C>,
    e: Epoch,
    largest: u64,
)
    requires
        m.spaces.len() == 3,
    ensures
        ({
            let w = m.with_largest_acked(e, largest);
            let old = m.space(e).largest_acked_pkt;
            &&& old == u64::MAX || old < largest ==> w.space(e).largest_acked_pkt == largest
            &&& old != u64::MAX && old >= largest ==> w.space(e).largest_acked_pkt == old
            &&& w == m.with_space(
                e,
                SpaceView { largest_acked_pkt: w.space(e).largest_acked_pkt, ..m.space(e) },
            )
        }),
{
}

/// What the search for lost packets leaves as it is.
proof fn lemma_detection_keeps<C: CongestionControlOps>(m: RecoveryView<C>, e: Epoch, now: Instant)
    requires
        m.spaces.len() == 3,
    ensures
        ({
            let w = m.after_loss(e, now);
            let o = m.loss_outcome(e, now);
            &&& w.space(e).largest_acked_pkt == m.space(e).largest_acked_pkt
            &&& w.lost_count == (m.lost_count + o.lost_packets) as usize
            &&& w.bytes_lost == (m.bytes_lost + o.lost_bytes) as u64
            &&& w.spaces.len() == 3
            &&& w == (RecoveryView {
                spaces: w.spaces,
                lost_count: w.lost_count,
                bytes_lost: w.bytes_lost,
                path: w.path,
                cc_ops: w.cc_ops,
                ..m
            })
        }),
{
}

/// What follows once packets have been acknowledged: the backoff ends and the
/// timer is set anew, and what was lost is counted.
proof fn lemma_ack_settles<C: CongestionControlOps>(
    m: RecoveryView<C>,
    recs: Seq<Acked>,
    e: Epoch,
    hs: HandshakeStatus,
    now: Instant,
)
    requires
        m.spaces.len() == 3,
    ensures
        ({
            let w = m.with_ack_settled(recs, e, hs, now).0;
            let o = m.loss_outcome(e, now);
            &&& w.space(e).largest_acked_pkt == m.space(e).largest_acked_pkt
            &&& w.lost_count == (m.lost_count + o.lost_packets) as usize
            &&& w.bytes_lost == (m.bytes_lost + o.lost_bytes) as u64
            &&& w.pto_count == 0
            &&& w.loss_detection_timer == w.timer(hs, now)
            &&& w == (RecoveryView {
                spaces: w.spaces,
                lost_count: w.lost_count,
                bytes_lost: w.bytes_lost,
                path: w.path,
                cc_ops: w.cc_ops,
                pto_count: w.pto_count,
                loss_detection_timer: w.loss_detection_timer,
                ..m
            })
        }),
{
    lemma_detection_keeps(m, e, now);
    let l = m.after_loss(e, now);
    let told = l.after_acked(recs, e, now).0;
    let reset = RecoveryView { pto_count: 0, ..told };
    let w = m.with_ack_settled(recs, e, hs, now).0;
    assert(w == reset.with_timer(hs, now).drained(e, now));
    assert(w.loss_deadline() == reset.loss_deadline());
    assert(w.probe_deadline(hs, now) == reset.probe_deadline(hs, now));
}

/// An ACK frame raises the thresholds and counts the losses that were spurious
/// even if it does nothing more.
///
/// One that acknowledges nothing new leaves the timer and the
/// backoff as they are; the records of the packets of which neither the peer
/// nor the proxy had told anything are appended to those that are left over.
/// One that acknowledges something new ends the backoff, sets the timer anew
/// and counts what is lost.
#[verifier::rlimit(30)]
pub proof fn lemma_ack_frame<C: CongestionControlOps>(
    m: RecoveryView<C>,
    ranges: Seq<PktRange>,
    ack_delay: u64,
    e: Epoch,
    hs: HandshakeStatus,
    now: Instant,
    newly_acked: Seq<Acked>,
    o: AckOutcome,
    keep: spec_fn(int) -> bool,
)
    requires
        m.wf(),
        ranges.len() > 0,
        ranges.last().end > 0,
        o == m.with_largest_acked(e, (ranges.last().end - 1) as u64).ack_outcome(ranges, e, now),
        forall|i: int| #[trigger]
            keep(i) <==> listed(ranges, m.space(e).sent[i].pkt_num)
                && m.space(e).sent[i].time_acked is None && m.space(e).sent[i].time_lost is None
                && m.space(e).sent[i].time_acked_sidecar is None,
    ensures
        ({
            let (w, left, lost) = m.after_ack(ranges, ack_delay, e, hs, now, newly_acked);
            let largest = (ranges.last().end - 1) as u64;
            &&& w.pkt_thresh == o.pkt_thresh
            &&& w.time_thresh == o.time_thresh
            &&& w.lost_spurious_count == (m.lost_spurious_count + o.spurious) as usize
            &&& w.bytes_sent == m.bytes_sent
            &&& w.sidecar == m.sidecar
            &&& w.max_ack_delay == m.max_ack_delay
            &&& w.outstanding_non_ack_eliciting == m.outstanding_non_ack_eliciting
            &&& w.space(e).largest_acked_pkt == m.with_largest_acked(e, largest).space(
                e,
            ).largest_acked_pkt
            &&& o.acked ==> w.pto_count == 0
            &&& o.acked ==> w.loss_detection_timer == w.timer(hs, now)
            &&& w.lost_count == (m.lost_count + lost.0) as usize
            &&& w.bytes_lost == (m.bytes_lost + lost.1) as u64
            &&& !o.acked ==> {
                &&& w.pto_count == m.pto_count
                &&& w.loss_detection_timer == m.loss_detection_timer
                &&& lost == (0usize, 0usize)
                &&& w.space(e).sent == m.space(e).after_ack(ranges, now).sent
                &&& left == newly_acked + records(pick(m.space(e).sent, keep), now)
            }
        }),
{
    let s = m.space(e).sent;
    lemma_pick_same(s, fresh(s, ranges), keep);
    let largest = (ranges.last().end - 1) as u64;
    let raised = m.with_largest_acked(e, largest);
    assert(raised.space(e).sent == s);
    let marked = raised.with_ack_marked(ranges, e, now).with_rollback(o.undo_cwnd);
    let timed = marked.with_ack_timed(o, largest, ack_delay, e, now);
    let recs = newly_acked + records(pick(s, fresh(s, ranges)), now);
    assert(timed.spaces == marked.spaces);
    if o.acked {
        lemma_ack_settles(timed, recs, e, hs, now);
    }
}

/// An ACK frame gives an RTT sample if the largest packet that it lists is
/// newly acknowledged and one of its new packets elicits an acknowledgement.
/// The sample is the time since that packet was sent. The delay that the peer
/// reports, in microseconds, counts in the space of the application only.
pub proof fn lemma_ack_sample<C: CongestionControlOps>(
    m: RecoveryView<C>,
    o: AckOutcome,
    largest: u64,
    ack_delay: u64,
    e: Epoch,
    now: Instant,
)
    requires
        now.in_range(),
        o.largest_newly_acked_sent_time.in_range(),
    ensures
        ({
            let w = m.with_ack_timed(o, largest, ack_delay, e, now);
            let age = now.nanos - o.largest_newly_acked_sent_time.nanos;
            let sampled = o.largest_newly_acked_pkt_num == largest && o.has_ack_eliciting && age
                > 0;
            &&& !sampled ==> w == m
            &&& sampled && e is Application ==> w == m.with_path(
                m.path.with_rtt(
                    Duration { nanos: age as u128 },
                    Duration { nanos: (1_000 * ack_delay) as u128 },
                    m.max_ack_delay,
                    now,
                ),
            )
            &&& sampled && !(e is Application) ==> w == m.with_path(
                m.path.with_rtt(
                    Duration { nanos: age as u128 },
                    Duration { nanos: 0 },
                    m.max_ack_delay,
                    now,
                ),
            )
        }),
{
}

/// What an ACK frame does, in order: the packets are marked, a loss that was
/// spurious is undone, the sample is taken, lost packets are looked for with the
/// thresholds and the estimate that result, and the delivery rate estimate and
/// the algorithm are told of what was acknowledged.
///
/// `a` is the state between the sample and the search for lost packets.
pub proof fn lemma_ack_order<C: CongestionControlOps>(
    m: RecoveryView<C>,
    ranges: Seq<PktRange>,
    ack_delay: u64,
    e: Epoch,
    hs: HandshakeStatus,
    now: Instant,
    newly_acked: Seq<Acked>,
    o: AckOutcome,
    keep: spec_fn(int) -> bool,
    age: int,
    undone: (C, CongestionState),
    a: RecoveryView<C>,
)
    requires
        m.wf(),
        now.in_range(),
        ranges.len() > 0,
        ranges.last().end > 0,
        o == m.with_largest_acked(e, (ranges.last().end - 1) as u64).ack_outcome(ranges, e, now),
        o.acked,
        o.largest_newly_acked_sent_time.in_range(),
        forall|i: int| #[trigger]
            keep(i) <==> listed(ranges, m.space(e).sent[i].pkt_num)
                && m.space(e).sent[i].time_acked is None && m.space(e).sent[i].time_lost is None
                && m.space(e).sent[i].time_acked_sidecar is None,
        age == now.nanos - o.largest_newly_acked_sent_time.nanos,
        o.undo_cwnd ==> undone == (
            m.cc_ops.after_rollback(m.path).0,
            m.cc_ops.after_rollback(m.path).1,
        ),
        !o.undo_cwnd ==> undone == (m.cc_ops, m.path),
        a == (RecoveryView {
            cc_ops: undone.0,
            spaces: m.spaces.update(
                e.rank(),
                m.with_largest_acked(e, (ranges.last().end - 1) as u64).space(e).after_ack(
                    ranges,
                    now,
                ),
            ),
            pkt_thresh: o.pkt_thresh,
            time_thresh: o.time_thresh,
            lost_spurious_count: (m.lost_spurious_count + o.spurious) as usize,
            path: if o.largest_newly_acked_pkt_num == ranges.last().end - 1 && o.has_ack_eliciting
                && age > 0 {
                undone.1.with_rtt(
                    Duration { nanos: age as u128 },
                    Duration {
                        nanos: if e is Application {
                            (1_000 * ack_delay) as u128
                        } else {
                            0
                        },
                    },
                    m.max_ack_delay,
                    now,
                )
            } else {
                undone.1
            },
            ..m
        }),
    ensures
        ({
            let (w, left, lost) = m.after_ack(ranges, ack_delay, e, hs, now, newly_acked);
            let l = a.after_loss(e, now);
            let recs = newly_acked + records(pick(m.space(e).sent, keep), now);
            let rate = l.path.delivery_rate.after_all_acked(recs, now).sampled(l.path.min_rtt);
            &&& lost == (a.loss_outcome(e, now).lost_packets, a.loss_outcome(e, now).lost_bytes)
            &&& (w.cc_ops, w.path, left) == l.cc_ops.after_acked(
                CongestionState { delivery_rate: rate, ..l.path },
                recs,
                e,
                now,
            )
            &&& w.spaces == l.with_path(w.path).drained(e, now).spaces
            &&& w.lost_count == l.lost_count
            &&& w.bytes_lost == l.bytes_lost
        }),
{
    let s = m.space(e).sent;
    lemma_pick_same(s, fresh(s, ranges), keep);
    let largest = (ranges.last().end - 1) as u64;
    let raised = m.with_largest_acked(e, largest);
    let marked = raised.with_ack_marked(ranges, e, now).with_rollback(o.undo_cwnd);
    assert(marked.spaces =~= a.spaces);
    let timed = marked.with_ack_timed(o, largest, ack_delay, e, now);
    lemma_ack_sample(marked, o, largest, ack_delay, e, now);
    assert(timed.path == a.path);
    assert(timed == a);
}

/// What an ACK frame shows is judged by the thresholds of the path, with the
/// time threshold for spurious losses.
pub proof fn lemma_ack_judged<C: CongestionControlOps>(
    m: RecoveryView<C>,
    ranges: Seq<PktRange>,
    e: Epoch,
    now: Instant,
)
    ensures
        m.ack_outcome(ranges, e, now) == ack_outcome(
            m.space(e).sent,
            m.space(e).sent.len() as int,
            ranges,
            now,
            m.reorder_delay(),
            m.space(e).largest_acked_pkt,
            m.pkt_thresh,
            m.time_thresh,
        ),
{
}

/// Every number that ranges in order list is less than the end of the last
/// range, and the one before that end is listed.
pub proof fn lemma_largest_listed(ranges: Seq<PktRange>, n: u64)
    requires
        ascending(ranges),
        ranges.len() > 0,
    ensures
        listed(ranges, n) ==> n <= ranges.last().end - 1,
        listed(ranges, (ranges.last().end - 1) as u64),
{
    let l = ranges.len() - 1;
    assert(ranges[l].start < ranges[l].end);
    assert(ranges[l].has((ranges.last().end - 1) as u64));
    if listed(ranges, n) {
        let k = choose|k: int| 0 <= k < ranges.len() && (#[trigger] ranges[k]).has(n);
        if k < l {
            assert(ranges[k].end < ranges[l].start);
        }
    }
}

/// Reno is told of acknowledged packets one by one and leaves no records over.
/// It never sets the pacing rate itself, and remembers nothing to undo.
pub proof fn lemma_reno_hooks(
    s: CongestionState,
    packets: Seq<Acked>,
    size: usize,
    e: Epoch,
    now: Instant,
)
    requires
        s.bytes_in_flight + size <= usize::MAX,
    ensures
        Reno.after_acked(s, packets, e, now) == (
            Reno,
            all_acked(s, packets),
            Seq::<Acked>::empty(),
        ),
        Reno.after_sent(s, size, now).1.bytes_in_flight == s.bytes_in_flight + size,
        Reno.after_sent(s, size, now).1 == (CongestionState {
            bytes_in_flight: Reno.after_sent(s, size, now).1.bytes_in_flight,
            ..s
        }),
        Reno.after_init(s).1 == s,
        Reno.after_reset(s).1 == s,
        Reno.after_checkpoint(s).1 == s,
        Reno.after_rollback(s).1 == s,
        !Reno.custom_pacing(),
{
}

/// With Reno, an acknowledged packet is no longer in flight. The window grows
/// neither for packets from before the recovery period nor while the
/// application is the limit. Below the threshold it grows by one datagram for
/// each datagram that is acknowledged, and above by one for each window.
pub proof fn lemma_reno_growth(s: CongestionState, pkt: Acked)
    requires
        s.bytes_acked_sl + pkt.size <= usize::MAX,
        s.bytes_acked_ca + pkt.size <= usize::MAX,
        s.congestion_window + s.max_datagram_size <= usize::MAX,
    ensures
        ({
            let t = one_acked(s, pkt);
            let recovering = s.congestion_recovery_start_time is Some && pkt.time_sent.nanos
                <= s.congestion_recovery_start_time->0.nanos;
            let grown = t.congestion_window - s.congestion_window;
            &&& s.bytes_in_flight >= pkt.size ==> t.bytes_in_flight == s.bytes_in_flight
                - pkt.size
            &&& s.bytes_in_flight < pkt.size ==> t.bytes_in_flight == 0
            &&& recovering || s.app_limited ==> t == (CongestionState {
                bytes_in_flight: t.bytes_in_flight,
                ..s
            })
            &&& !recovering && !s.app_limited && s.congestion_window < s.ssthresh ==> {
                &&& grown == 0 || grown == s.max_datagram_size
                &&& t.bytes_acked_sl + grown == s.bytes_acked_sl + pkt.size
                &&& s.bytes_acked_sl + pkt.size >= s.max_datagram_size ==> grown
                    == s.max_datagram_size
                &&& t.bytes_acked_ca == s.bytes_acked_ca
            }
            &&& !recovering && !s.app_limited && s.congestion_window >= s.ssthresh ==> {
                &&& s.bytes_acked_ca + pkt.size < s.congestion_window ==> grown == 0
                    && t.bytes_acked_ca == s.bytes_acked_ca + pkt.size
                &&& s.bytes_acked_ca + pkt.size >= s.congestion_window ==> grown
                    == s.max_datagram_size && t.bytes_acked_ca == s.bytes_acked_ca + pkt.size
                    - s.congestion_window
                &&& t.bytes_acked_sl == s.bytes_acked_sl
            }
            &&& t == (CongestionState {
                bytes_in_flight: t.bytes_in_flight,
                congestion_window: t.congestion_window,
                bytes_acked_sl: t.bytes_acked_sl,
                bytes_acked_ca: t.bytes_acked_ca,
                ..s
            })
        }),
{
}

/// With Reno, acknowledgements take effect one by one, in order.
pub proof fn lemma_reno_one_by_one(s: CongestionState, packets: Seq<Acked>, next: Acked)
    ensures
        all_acked(s, Seq::empty()) == s,
        all_acked(s, packets.push(next)) == one_acked(all_acked(s, packets), next),
{
    assert(packets.push(next).drop_last() =~= packets);
}

/// The delivery rate estimate counts every acknowledged byte once, and takes
/// note of the packet that left last with the most delivered before it.
pub proof fn lemma_delivered(r: Rate, packets: Seq<Acked>, pkt: Acked, now: Instant)
    requires
        r.delivered + pkt.size <= usize::MAX,
        now.in_range(),
        pkt.wf(),
    ensures
        r.after_all_acked(Seq::empty(), now) == r,
        r.after_all_acked(packets.push(pkt), now) == r.after_all_acked(packets, now).after_acked(
            pkt,
            now,
        ),
        ({
            let t = r.after_acked(pkt, now);
            let newest = r.rate_sample.prior_time is None || pkt.delivered
                > r.rate_sample.prior_delivered;
            &&& t.delivered == r.delivered + pkt.size
            &&& t.delivered_time == now
            &&& t.largest_acked >= pkt.pkt_num && t.largest_acked >= r.largest_acked
            &&& t.largest_acked == pkt.pkt_num || t.largest_acked == r.largest_acked
            &&& newest ==> t.rate_sample.prior_delivered == pkt.delivered
                && t.rate_sample.prior_time == Some(pkt.delivered_time) && t.first_sent_time
                == pkt.time_sent && t.rate_sample.rtt == pkt.rtt && t.rate_sample.is_app_limited
                == pkt.is_app_limited
            &&& newest && pkt.time_sent.nanos >= pkt.first_sent_time.nanos
                ==> t.rate_sample.send_elapsed.nanos == pkt.time_sent.nanos
                - pkt.first_sent_time.nanos
            &&& newest && now.nanos >= pkt.delivered_time.nanos
                ==> t.rate_sample.ack_elapsed.nanos == now.nanos - pkt.delivered_time.nanos
            &&& !newest ==> t.rate_sample == r.rate_sample && t.first_sent_time
                == r.first_sent_time
            &&& t.rate_sample.delivery_rate == r.rate_sample.delivery_rate
            &&& t.end_of_app_limited == r.end_of_app_limited
            &&& t.last_sent_packet == r.last_sent_packet
        }),
{
    assert(packets.push(pkt).drop_last() =~= packets);
}

/// The estimate is what was delivered over the longer of the times that sending
/// and acknowledging took, unless that is shorter than the smallest RTT.
pub proof fn lemma_delivery_sample(r: Rate, min_rtt: Duration, interval: int, rate: int)
    requires
        r.rate_sample.prior_time is Some,
        r.delivered >= r.rate_sample.prior_delivered,
        interval == r.rate_sample.send_elapsed.nanos || interval
            == r.rate_sample.ack_elapsed.nanos,
        interval >= r.rate_sample.send_elapsed.nanos,
        interval >= r.rate_sample.ack_elapsed.nanos,
        interval > 0,
        rate * interval <= (r.delivered - r.rate_sample.prior_delivered) * 1_000_000_000 < (rate
            + 1) * interval,
    ensures
        ({
            let t = r.sampled(min_rtt);
            let u = t.rate_sample;
            &&& u.delivered == r.delivered - r.rate_sample.prior_delivered
            &&& interval < min_rtt.nanos ==> u.interval.nanos == 0 && u.delivery_rate
                == r.rate_sample.delivery_rate
            &&& interval >= min_rtt.nanos ==> u.interval.nanos == interval
            &&& interval >= min_rtt.nanos && rate <= u64::MAX ==> u.delivery_rate == rate
            &&& interval >= min_rtt.nanos && rate > u64::MAX ==> u.delivery_rate == u64::MAX
            &&& r.end_of_app_limited != 0 && r.largest_acked > r.end_of_app_limited
                ==> t.end_of_app_limited == 0
            &&& !(r.end_of_app_limited != 0 && r.largest_acked > r.end_of_app_limited)
                ==> t.end_of_app_limited == r.end_of_app_limited
            &&& u == (RateSample {
                delivered: u.delivered,
                interval: u.interval,
                delivery_rate: u.delivery_rate,
                ..r.rate_sample
            })
            &&& t == (Rate {
                rate_sample: u,
                end_of_app_limited: t.end_of_app_limited,
                ..r
            })
        }),
{
    let num = (r.delivered - r.rate_sample.prior_delivered) * 1_000_000_000;
    let q = num / interval;
    assert(q == rate) by (nonlinear_arith)
        requires
            interval > 0,
            q == num / interval,
            rate * interval <= num < (rate + 1) * interval,
    ;
}

} // verus!
