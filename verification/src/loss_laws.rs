//! Which packets are lost, forgotten, probed for and dropped, in terms of the
//! fields of the packets.
use vstd::prelude::*;

use crate::congestion::CongestionControlOps;
use crate::congestion::CongestionState;
use crate::lists::bytes;
use crate::lists::count;
use crate::lists::first_index;
use crate::lists::frames_in;
use crate::lists::lemma_count_bound;
use crate::lists::lemma_first_index;
use crate::lists::less;
use crate::lists::pick;
use crate::lists::records;
use crate::loss::flying;
use crate::loss::in_flight_before;
use crate::loss::outstanding_before;
use crate::loss::probes;
use crate::loss::remembered;
use crate::loss::search_ends;
use crate::model::HandshakeStatus;
use crate::model::RecoveryView;
use crate::packet::Epoch;
use crate::reno::Reno;
use crate::rtt_laws::lemma_time_threshold_covers_both;
use crate::sent::SentView;
use crate::space::SpaceView;
use crate::tally::lemma_bytes_same;
use crate::tally::lemma_count_same;
use crate::time::Duration;
use crate::time::Instant;

verus! {

/// Counting, adding up and selecting go packet by packet.
pub proof fn lemma_next_counted(s: Seq<SentView>, p: SentView, keep: spec_fn(int) -> bool)
    ensures
        count(0, keep) == 0,
        bytes(Seq::empty(), keep) == 0,
        pick(Seq::<SentView>::empty(), keep).len() == 0,
        frames_in(Seq::empty()).len() == 0,
        ({
            let n = s.len() as int;
            let t = s.push(p);
            &&& keep(n) ==> count(n + 1, keep) == count(n, keep) + 1
            &&& !keep(n) ==> count(n + 1, keep) == count(n, keep)
            &&& keep(n) ==> bytes(t, keep) == bytes(s, keep) + p.size
            &&& !keep(n) ==> bytes(t, keep) == bytes(s, keep)
            &&& keep(n) ==> pick(t, keep) == pick(s, keep).push(p)
            &&& !keep(n) ==> pick(t, keep) == pick(s, keep)
            &&& frames_in(t) == frames_in(s) + p.frames
        }),
{
    assert(s.push(p).drop_last() =~= s);
}

/// A difference is no less than zero.
pub proof fn lemma_less(a: usize, b: int)
    requires
        b >= 0,
    ensures
        a >= b ==> less(a, b) == a - b,
        a < b ==> less(a, b) == 0,
{
}

/// A record of an acknowledgement says of the packet what the packet says, and
/// its RTT is the time since it was sent.
pub proof fn lemma_record(s: Seq<SentView>, now: Instant, i: int)
    requires
        0 <= i < s.len(),
        s[i].wf(),
        now.in_range(),
    ensures
        ({
            let r = records(s, now);
            &&& r.len() == s.len()
            &&& r[i].pkt_num == s[i].pkt_num
            &&& r[i].time_sent == s[i].time_sent
            &&& r[i].size == s[i].size
            &&& r[i].delivered == s[i].delivered
            &&& r[i].delivered_time == s[i].delivered_time
            &&& r[i].first_sent_time == s[i].first_sent_time
            &&& r[i].is_app_limited == s[i].is_app_limited
            &&& now.nanos >= s[i].time_sent.nanos ==> r[i].rtt.nanos == now.nanos
                - s[i].time_sent.nanos
            &&& now.nanos < s[i].time_sent.nanos ==> r[i].rtt.nanos == 0
        }),
{
}

/// What is selected depends only on which positions are kept.
pub proof fn lemma_pick_same<T>(s: Seq<T>, a: spec_fn(int) -> bool, b: spec_fn(int) -> bool)
    requires
        forall|i: int| 0 <= i < s.len() ==> (#[trigger] a(i) <==> b(i)),
    ensures
        pick(s, a) == pick(s, b),
    decreases s.len(),
{
    if s.len() > 0 {
        lemma_pick_same(s.drop_last(), a, b);
        assert(a(s.len() - 1) <==> b(s.len() - 1));
    }
}

/// What is selected last stands behind everything else that is kept.
pub proof fn lemma_pick_last(s: Seq<SentView>, keep: spec_fn(int) -> bool) -> (i: int)
    requires
        pick(s, keep).len() > 0,
    ensures
        0 <= i < s.len(),
        keep(i),
        pick(s, keep).last() == s[i],
        forall|j: int| i < j < s.len() ==> !#[trigger] keep(j),
    decreases s.len(),
{
    if keep(s.len() - 1) {
        s.len() - 1
    } else {
        lemma_pick_last(s.drop_last(), keep)
    }
}

/// Nothing is selected only if nothing is kept.
pub proof fn lemma_pick_none(s: Seq<SentView>, keep: spec_fn(int) -> bool, i: int)
    requires
        pick(s, keep).len() == 0,
        0 <= i < s.len(),
    ensures
        !keep(i),
    decreases s.len(),
{
    if i < s.len() - 1 {
        lemma_pick_none(s.drop_last(), keep, i);
    }
}

/// Packets are declared lost from the oldest on, up to the first that follows
/// the largest acknowledged one, or that is outstanding and neither old nor far
/// behind enough. If that one is outstanding and does not follow, it will be
/// lost when it is `delay` old.
///
/// `n` is the position of that packet.
proof fn lemma_search_end(
    v: SpaceView,
    now: Instant,
    delay: Duration,
    pkt_thresh: u64,
    n: int,
)
    requires
        0 <= n <= v.sent.len(),
        forall|i: int|
            0 <= i < n ==> {
                let p = #[trigger] v.sent[i];
                p.pkt_num <= v.largest_acked_pkt && (p.time_acked is Some || p.time_lost is Some
                    || p.time_sent.nanos + delay.nanos <= now.nanos || v.largest_acked_pkt
                    - p.pkt_num >= pkt_thresh)
            },
        n < v.sent.len() ==> ({
            let p = v.sent[n];
            p.pkt_num > v.largest_acked_pkt || (p.time_acked is None && p.time_lost is None
                && p.time_sent.nanos + delay.nanos > now.nanos && v.largest_acked_pkt - p.pkt_num
                < pkt_thresh)
        }),
    ensures
        v.search_end(now, delay, pkt_thresh) == n,
{
    let stop = search_ends(v.sent, v.largest_acked_pkt, now, delay, pkt_thresh);
    let k = v.search_end(now, delay, pkt_thresh);
    lemma_first_index(0, v.sent.len() as int, stop);
    if k < n {
        assert(stop(k));
        let p = v.sent[k];
    }
    if n < k {
        assert(!stop(n));
    }
}

/// The packets before position `n` that were outstanding, and no others, are
/// declared lost: their frames are to be sent again, and those in flight no
/// longer count as in flight. Here `n` is the position of the first packet that
/// follows the largest acknowledged one, or that is outstanding and neither old
/// nor far behind enough. If that one is outstanding and does not follow, it
/// will be lost when it is `delay` old.
pub proof fn lemma_who_is_lost(
    v: SpaceView,
    now: Instant,
    delay: Duration,
    pkt_thresh: u64,
    n: int,
    keep: spec_fn(int) -> bool,
    keep_in_flight: spec_fn(int) -> bool,
)
    requires
        v.wf(),
        delay.nanos <= 0x8000_0000_0000_0000_0000_0000,
        0 <= n <= v.sent.len() <= usize::MAX,
        forall|i: int|
            0 <= i < n ==> {
                let p = #[trigger] v.sent[i];
                p.pkt_num <= v.largest_acked_pkt && (p.time_acked is Some || p.time_lost is Some
                    || p.time_sent.nanos + delay.nanos <= now.nanos || v.largest_acked_pkt
                    - p.pkt_num >= pkt_thresh)
            },
        n < v.sent.len() ==> ({
            let p = v.sent[n];
            p.pkt_num > v.largest_acked_pkt || (p.time_acked is None && p.time_lost is None
                && p.time_sent.nanos + delay.nanos > now.nanos && v.largest_acked_pkt - p.pkt_num
                < pkt_thresh)
        }),
        forall|i: int| #[trigger]
            keep(i) <==> v.sent[i].time_acked is None && v.sent[i].time_lost is None,
        forall|i: int| #[trigger]
            keep_in_flight(i) <==> v.sent[i].time_acked is None && v.sent[i].time_lost is None
                && v.sent[i].in_flight,
        bytes(v.sent.take(n), keep_in_flight) <= usize::MAX,
    ensures
        ({
            let w = v.after_loss(now, delay, pkt_thresh);
            let o = v.loss_outcome(now, delay, pkt_thresh);
            &&& w.sent.len() == v.sent.len()
            &&& forall|i: int|
                0 <= i < v.sent.len() ==> #[trigger] w.sent[i] == if i < n
                    && v.sent[i].time_acked is None && v.sent[i].time_lost is None {
                    SentView { time_lost: Some(now), frames: Seq::empty(), ..v.sent[i] }
                } else {
                    v.sent[i]
                }
            &&& w.lost == v.lost + frames_in(pick(v.sent.take(n), keep))
            &&& w.in_flight_count == less(v.in_flight_count, count(n, keep_in_flight) as int)
            &&& n < v.sent.len() && v.sent[n].pkt_num <= v.largest_acked_pkt ==> w.loss_time is Some
                && w.loss_time->0.nanos == v.sent[n].time_sent.nanos + delay.nanos
            &&& n == v.sent.len() || v.sent[n].pkt_num > v.largest_acked_pkt ==> w.loss_time is None
            &&& w == (SpaceView {
                sent: w.sent,
                lost: w.lost,
                in_flight_count: w.in_flight_count,
                loss_time: w.loss_time,
                ..v
            })
            &&& o.lost_packets == count(n, keep)
            &&& o.lost_bytes == bytes(v.sent.take(n), keep_in_flight)
            &&& o.largest_lost_pkt is None ==> forall|i: int|
                0 <= i < n ==> !#[trigger] keep_in_flight(i)
            &&& o.largest_lost_pkt is Some ==> exists|i: int|
                {
                    &&& 0 <= i < n
                    &&& #[trigger] keep_in_flight(i)
                    &&& o.largest_lost_pkt->0.pkt_num == v.sent[i].pkt_num
                    &&& o.largest_lost_pkt->0.time_sent == v.sent[i].time_sent
                    &&& forall|j: int| i < j < n ==> !#[trigger] keep_in_flight(j)
                }
        }),
{
    lemma_search_end(v, now, delay, pkt_thresh, n);
    let front = v.sent.take(n);
    let out = outstanding_before(v.sent, n);
    let fly = in_flight_before(v.sent, n);
    lemma_pick_same(front, out, keep);
    lemma_pick_same(front, fly, keep_in_flight);
    lemma_count_same(n, out, keep);
    lemma_count_same(n, fly, keep_in_flight);
    lemma_bytes_same(front, front, fly, keep_in_flight);
    lemma_count_bound(n, keep);
    if n < v.sent.len() {
        assert(v.sent[n].wf());
    }
    if pick(front, keep_in_flight).len() > 0 {
        let i = lemma_pick_last(front, keep_in_flight);
        assert(keep_in_flight(i) && front[i] == v.sent[i]);
    } else {
        assert forall|i: int| 0 <= i < n implies !#[trigger] keep_in_flight(i) by {
            lemma_pick_none(front, keep_in_flight, i);
        }
    }
}

/// A packet that is fewer than `pkt_thresh` numbers behind the largest
/// acknowledged one is not declared lost while it is younger than
/// `time_thresh` eighths of the latest RTT, nor while it is younger than that
/// share of the smoothed RTT, nor before it is a millisecond old.
pub proof fn lemma_young_packet_kept<C: CongestionControlOps>(
    m: RecoveryView<C>,
    e: Epoch,
    now: Instant,
    rtt: int,
    i: int,
)
    requires
        m.wf(),
        0 <= i < m.space(e).sent.len(),
        m.space(e).sent[i].time_lost is None,
        m.space(e).largest_acked_pkt - m.space(e).sent[i].pkt_num < m.pkt_thresh,
        m.path.smoothed_rtt is Some ==> rtt == m.path.smoothed_rtt->0.nanos,
        m.path.smoothed_rtt is None ==> rtt == 333_000_000,
        ({
            let age = now.nanos - m.space(e).sent[i].time_sent.nanos;
            ||| 8 * age + 4 <= m.path.latest_rtt.nanos * m.time_thresh
            ||| 8 * age + 4 <= rtt * m.time_thresh
            ||| age < 1_000_000
        }),
    ensures
        m.with_loss_marked(e, now).space(e).sent[i] == m.space(e).sent[i],
{
    let v = m.space(e);
    lemma_time_threshold_covers_both(m, rtt);
    let stop = search_ends(v.sent, v.largest_acked_pkt, now, m.loss_delay(), m.pkt_thresh);
    lemma_first_index(0, v.sent.len() as int, stop);
    let n = v.search_end(now, m.loss_delay(), m.pkt_thresh);
    if i < n && v.sent[i].outstanding() {
        assert(!stop(i));
    }
}

/// Loss detection marks the lost packets of one space, counts them, and forgets
/// those at the front of the list that nobody asks for any more: those that
/// are not outstanding and were not declared lost within the last RTT. All that
/// it changes besides is up to the congestion control algorithm.
///
/// `k` is how many are forgotten.
pub proof fn lemma_detection_effect<C: CongestionControlOps>(
    m: RecoveryView<C>,
    e: Epoch,
    now: Instant,
    k: int,
)
    requires
        m.wf(),
        ({
            let t = m.space(e).after_loss(now, m.loss_delay(), m.pkt_thresh).sent;
            let rtt = m.after_loss(e, now).path.spec_rtt();
            &&& 0 <= k <= t.len()
            &&& forall|i: int|
                0 <= i < k ==> ((#[trigger] t[i]).time_acked is Some || t[i].time_lost is Some)
                    && (t[i].time_lost is None || t[i].time_lost->0.nanos + rtt.nanos
                    <= now.nanos)
            &&& k < t.len() ==> (t[k].time_acked is None && t[k].time_lost is None) || (
            t[k].time_lost is Some && t[k].time_lost->0.nanos + rtt.nanos > now.nanos)
        }),
    ensures
        ({
            let o = m.space(e).loss_outcome(now, m.loss_delay(), m.pkt_thresh);
            let t = m.space(e).after_loss(now, m.loss_delay(), m.pkt_thresh);
            let w = m.after_loss(e, now);
            &&& m.loss_outcome(e, now) == o
            &&& w.spaces == m.spaces.update(e.rank(), SpaceView { sent: t.sent.skip(k), ..t })
            &&& w.lost_count == (m.lost_count + o.lost_packets) as usize
            &&& w.bytes_lost == (m.bytes_lost + o.lost_bytes) as u64
            &&& o.largest_lost_pkt is None ==> w.path == m.path && w.cc_ops == m.cc_ops
            &&& w == (RecoveryView {
                spaces: w.spaces,
                lost_count: w.lost_count,
                bytes_lost: w.bytes_lost,
                path: w.path,
                cc_ops: w.cc_ops,
                ..m
            })
        }),
{
    let t = m.space(e).after_loss(now, m.loss_delay(), m.pkt_thresh);
    let w = m.after_loss(e, now);
    let rtt = w.path.spec_rtt();
    lemma_who_is_forgotten(t, rtt, now, k);
    assert(w.spaces =~= m.spaces.update(e.rank(), SpaceView { sent: t.sent.skip(k), ..t }));
}

/// The packets at the front of the list that nobody asks for any more are
/// forgotten, and nothing else changes. A packet is asked for while it is
/// outstanding, and for one RTT after it was declared lost.
pub proof fn lemma_who_is_forgotten(v: SpaceView, rtt: Duration, now: Instant, k: int)
    requires
        0 <= k <= v.sent.len(),
        forall|i: int|
            0 <= i < k ==> ((#[trigger] v.sent[i]).time_acked is Some || v.sent[i].time_lost is Some)
                && (v.sent[i].time_lost is None || v.sent[i].time_lost->0.nanos + rtt.nanos
                <= now.nanos),
        k < v.sent.len() ==> (v.sent[k].time_acked is None && v.sent[k].time_lost is None) || (
        v.sent[k].time_lost is Some && v.sent[k].time_lost->0.nanos + rtt.nanos > now.nanos),
    ensures
        v.drained(rtt, now) == (SpaceView { sent: v.sent.skip(k), ..v }),
{
    let keep = remembered(v.sent, rtt, now);
    let n = first_index(0, v.sent.len() as int, keep);
    lemma_first_index(0, v.sent.len() as int, keep);
    if n < k {
        assert(keep(n));
        let p = v.sent[n];
    }
    if k < n {
        assert(!keep(k));
    }
}

/// The bytes that are lost are no longer in flight when the algorithm is told of
/// them, with the time at which the last of their packets was sent.
pub proof fn lemma_loss_told<C: CongestionControlOps>(m: RecoveryView<C>, e: Epoch, now: Instant)
    requires
        m.wf(),
        m.loss_outcome(e, now).largest_lost_pkt is Some,
    ensures
        ({
            let o = m.loss_outcome(e, now);
            let w = m.after_loss(e, now);
            let landed = RecoveryView {
                path: CongestionState {
                    bytes_in_flight: if m.path.bytes_in_flight >= o.lost_bytes {
                        (m.path.bytes_in_flight - o.lost_bytes) as usize
                    } else {
                        0
                    },
                    ..m.path
                },
                ..m
            };
            let told = landed.with_congestion(
                o.lost_bytes,
                o.largest_lost_pkt->0.time_sent,
                e,
                now,
                None,
            );
            w.path == told.path && w.cc_ops == told.cc_ops
        }),
{
}

/// With Reno, the bytes that are lost are no longer in flight, and the window
/// is halved, but to no less than two datagrams, unless the last packet that
/// was lost was sent before the current recovery period began.
pub proof fn lemma_reno_loss(
    m: RecoveryView<Reno>,
    e: Epoch,
    now: Instant,
)
    requires
        m.wf(),
        m.loss_outcome(e, now).largest_lost_pkt is Some,
    ensures
        ({
            let s = m.path;
            let t = m.after_loss(e, now).path;
            let o = m.loss_outcome(e, now);
            let sent = o.largest_lost_pkt->0.time_sent;
            let recovering = s.congestion_recovery_start_time is Some && sent.nanos
                <= s.congestion_recovery_start_time->0.nanos;
            &&& s.bytes_in_flight >= o.lost_bytes ==> t.bytes_in_flight == s.bytes_in_flight
                - o.lost_bytes
            &&& s.bytes_in_flight < o.lost_bytes ==> t.bytes_in_flight == 0
            &&& recovering ==> t == (CongestionState { bytes_in_flight: t.bytes_in_flight, ..s })
            &&& !recovering ==> {
                &&& t.congestion_window >= 2 * s.max_datagram_size
                &&& 2 * t.congestion_window >= s.congestion_window - 1
                &&& t.congestion_window == 2 * s.max_datagram_size || (2 * t.congestion_window
                    <= s.congestion_window)
                &&& t.ssthresh == t.congestion_window
                &&& 2 * t.bytes_acked_ca <= t.congestion_window <= 2 * t.bytes_acked_ca + 1
                &&& t.congestion_recovery_start_time == Some(now)
                &&& t.congestion_recovery_metadata is None
                &&& t == (CongestionState {
                    bytes_in_flight: t.bytes_in_flight,
                    congestion_window: t.congestion_window,
                    ssthresh: t.ssthresh,
                    bytes_acked_ca: t.bytes_acked_ca,
                    congestion_recovery_start_time: t.congestion_recovery_start_time,
                    congestion_recovery_metadata: t.congestion_recovery_metadata,
                    ..s
                })
            }
        }),
{
}

/// The frames of the oldest packets that carry data and are outstanding are
/// sent again as probes, of as many as there are probes to send.
pub proof fn lemma_who_is_probed(v: SpaceView, n: int, keep: spec_fn(int) -> bool)
    requires
        n >= 0,
        forall|i: int| #[trigger]
            keep(i) <==> v.sent[i].has_data && v.sent[i].time_acked is None
                && v.sent[i].time_lost is None,
    ensures
        pick(v.sent, keep).len() <= n ==> v.probe_frames(n) == frames_in(pick(v.sent, keep)),
        pick(v.sent, keep).len() > n ==> v.probe_frames(n) == frames_in(
            pick(v.sent, keep).take(n),
        ),
{
    lemma_pick_same(v.sent, probes(v.sent), keep);
    assert(pick(v.sent, keep).take(pick(v.sent, keep).len() as int) =~= pick(v.sent, keep));
}

/// When the keys of a space are gone, its outstanding packets are no longer in
/// flight, and nothing is left of it but its largest packet numbers. The
/// backoff and the other spaces are left as they are, and the timer is set
/// anew.
pub proof fn lemma_discard_effect<C: CongestionControlOps>(
    m: RecoveryView<C>,
    e: Epoch,
    hs: HandshakeStatus,
    now: Instant,
    other: Epoch,
    keep: spec_fn(int) -> bool,
)
    requires
        m.wf(),
        other != e,
        forall|i: int| #[trigger]
            keep(i) <==> m.space(e).sent[i].in_flight && m.space(e).sent[i].time_acked is None
                && m.space(e).sent[i].time_lost is None,
    ensures
        ({
            let w = m.after_discard(e, hs, now);
            let gone = bytes(m.space(e).sent, keep);
            let s = w.space(e);
            &&& m.path.bytes_in_flight >= gone ==> w.path.bytes_in_flight
                == m.path.bytes_in_flight - gone
            &&& m.path.bytes_in_flight < gone ==> w.path.bytes_in_flight == 0
            &&& w.path == (CongestionState { bytes_in_flight: w.path.bytes_in_flight, ..m.path })
            &&& s.sent.len() == 0 && s.lost.len() == 0 && s.acked.len() == 0
            &&& s.time_of_last_sent_ack_eliciting_pkt is None && s.loss_time is None
            &&& s.loss_probes == 0 && s.in_flight_count == 0
            &&& s.largest_acked_pkt == m.space(e).largest_acked_pkt
            &&& s.largest_sent_pkt == m.space(e).largest_sent_pkt
            &&& w.space(other) == m.space(other)
            &&& w.loss_detection_timer == w.timer(hs, now)
            &&& w == (RecoveryView {
                loss_detection_timer: w.loss_detection_timer,
                spaces: w.spaces,
                path: w.path,
                ..m
            })
        }),
{
    let sent = m.space(e).sent;
    lemma_bytes_same(sent, sent, flying(sent), keep);
}

} // verus!
