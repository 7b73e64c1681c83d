//! Which packets a proxy's report marks and what follows from it, in terms of
//! the fields of the packets.
use vstd::prelude::*;

use crate::congestion::CongestionControlOps;
use crate::congestion::CongestionState;
use crate::congestion::QuackMetadata;
use crate::lists::bytes;
use crate::lists::count;
use crate::lists::frames_in;
use crate::lists::lemma_count_bound;
use crate::lists::less;
use crate::lists::pick;
use crate::lists::records;
use crate::loss_laws::lemma_pick_last;
use crate::loss_laws::lemma_pick_none;
use crate::loss_laws::lemma_pick_same;
use crate::model::RecoveryView;
use crate::packet::Epoch;
use crate::reno::all_acked;
use crate::reno::Reno;
use crate::sent::SentView;
use crate::sidecar::missed;
use crate::sidecar::missed_in_flight;
use crate::sidecar::named;
use crate::sidecar::named_in_flight;
use crate::space::SpaceView;
use crate::tally::lemma_bytes_same;
use crate::tally::lemma_count_same;
use crate::time::Duration;
use crate::time::Instant;

verus! {

/// Of the packets that neither the peer nor the proxy has acknowledged, the
/// proxy acknowledges the first with each of the identifiers. They hand their
/// frames on and are no longer in flight. Nothing else changes.
pub proof fn lemma_who_is_echoed(
    v: SpaceView,
    ids: Set<u32>,
    now: Instant,
    keep: spec_fn(int) -> bool,
    keep_in_flight: spec_fn(int) -> bool,
)
    requires
        forall|i: int| #[trigger]
            keep(i) <==> {
                &&& v.sent[i].time_acked is None
                &&& v.sent[i].time_acked_sidecar is None
                &&& ids.contains(v.sent[i].sidecar_id)
                &&& forall|j: int|
                    0 <= j < i && (#[trigger] v.sent[j]).time_acked is None
                        && v.sent[j].time_acked_sidecar is None ==> v.sent[j].sidecar_id
                        != v.sent[i].sidecar_id
            },
        forall|i: int| #[trigger] keep_in_flight(i) <==> keep(i) && v.sent[i].in_flight,
    ensures
        ({
            let w = v.after_echo(ids, now);
            &&& w.sent.len() == v.sent.len()
            &&& forall|i: int|
                0 <= i < v.sent.len() && #[trigger] keep(i) ==> w.sent[i] == (SentView {
                    time_acked_sidecar: Some(now),
                    frames: Seq::empty(),
                    ..v.sent[i]
                })
            &&& forall|i: int|
                0 <= i < v.sent.len() && !#[trigger] keep(i) ==> w.sent[i] == v.sent[i]
            &&& w.acked == v.acked + frames_in(pick(v.sent, keep))
            &&& w.in_flight_count == less(
                v.in_flight_count,
                count(v.sent.len() as int, keep_in_flight) as int,
            )
            &&& w == (SpaceView {
                sent: w.sent,
                acked: w.acked,
                in_flight_count: w.in_flight_count,
                ..v
            })
            &&& pick(v.sent, named(v.sent, ids)) == pick(v.sent, keep)
            &&& (exists|i: int|
                {
                    &&& 0 <= i < v.sent.len()
                    &&& #[trigger] keep(i)
                    &&& v.sent[i].time_sent == v.last_echo_sent(ids, now)
                    &&& forall|j: int| i < j < v.sent.len() ==> !#[trigger] keep(j)
                }) || (v.last_echo_sent(ids, now) == now && forall|i: int|
                0 <= i < v.sent.len() ==> !#[trigger] keep(i))
        }),
{
    let s = v.sent;
    let f = named(s, ids);
    let w = v.after_echo(ids, now);
    assert forall|i: int| #[trigger] f(i) <==> keep(i) by {
        let k = keep(i);
        if k {
            assert forall|j: int| 0 <= j < i && (#[trigger] s[j]).unacked() implies s[j].sidecar_id
                != s[i].sidecar_id by {}
        }
        if f(i) {
            assert forall|j: int|
                0 <= j < i && (#[trigger] v.sent[j]).time_acked is None
                    && v.sent[j].time_acked_sidecar is None implies v.sent[j].sidecar_id
                != v.sent[i].sidecar_id by {
                assert(s[j].unacked());
            }
        }
    }
    assert(forall|i: int| #[trigger] keep(i) <==> f(i));
    lemma_pick_same(s, f, keep);
    lemma_count_same(s.len() as int, named_in_flight(s, ids), keep_in_flight);
    if pick(s, keep).len() > 0 {
        let i = lemma_pick_last(s, keep);
        assert(keep(i));
    } else {
        assert forall|i: int| 0 <= i < s.len() implies !#[trigger] keep(i) by {
            lemma_pick_none(s, keep, i);
        }
    }
}

/// Of the packets that neither the peer nor the proxy has acknowledged, the
/// first with each of the identifiers is lost, unless it was before. Their
/// frames are to be sent again, and they are no longer in flight. Nothing else
/// changes.
pub proof fn lemma_who_is_missed(
    v: SpaceView,
    ids: Set<u32>,
    now: Instant,
    keep: spec_fn(int) -> bool,
    keep_in_flight: spec_fn(int) -> bool,
)
    requires
        v.sent.len() <= usize::MAX,
        forall|i: int| #[trigger]
            keep(i) <==> {
                &&& v.sent[i].time_acked is None
                &&& v.sent[i].time_acked_sidecar is None
                &&& v.sent[i].time_lost is None
                &&& ids.contains(v.sent[i].sidecar_id)
                &&& forall|j: int|
                    0 <= j < i && (#[trigger] v.sent[j]).time_acked is None
                        && v.sent[j].time_acked_sidecar is None ==> v.sent[j].sidecar_id
                        != v.sent[i].sidecar_id
            },
        forall|i: int| #[trigger] keep_in_flight(i) <==> keep(i) && v.sent[i].in_flight,
        bytes(v.sent, keep_in_flight) <= usize::MAX,
    ensures
        ({
            let w = v.after_miss(ids, now);
            let o = v.miss_outcome(ids);
            let n = v.sent.len() as int;
            &&& w.sent.len() == v.sent.len()
            &&& forall|i: int|
                0 <= i < n && #[trigger] keep(i) ==> w.sent[i] == (SentView {
                    time_lost: Some(now),
                    frames: Seq::empty(),
                    ..v.sent[i]
                })
            &&& forall|i: int| 0 <= i < n && !#[trigger] keep(i) ==> w.sent[i] == v.sent[i]
            &&& w.lost == v.lost + frames_in(pick(v.sent, keep))
            &&& w.in_flight_count == less(v.in_flight_count, count(n, keep_in_flight) as int)
            &&& w == (SpaceView {
                sent: w.sent,
                lost: w.lost,
                in_flight_count: w.in_flight_count,
                ..v
            })
            &&& o.lost_packets == count(n, keep)
            &&& o.lost_bytes == bytes(v.sent, keep_in_flight)
            &&& o.largest_lost_pkt is None ==> forall|i: int|
                0 <= i < n ==> !#[trigger] keep_in_flight(i)
            &&& o.largest_lost_pkt is Some ==> exists|i: int|
                {
                    &&& 0 <= i < n
                    &&& #[trigger] keep_in_flight(i)
                    &&& o.largest_lost_pkt->0.pkt_num == v.sent[i].pkt_num
                    &&& o.largest_lost_pkt->0.time_sent == v.sent[i].time_sent
                    &&& forall|j: int| i < j < n ==> !#[trigger] keep_in_flight(j)
                }
        }),
{
    let s = v.sent;
    let n = s.len() as int;
    let f = missed(s, ids);
    let g = missed_in_flight(s, ids);
    assert forall|i: int| #[trigger] f(i) <==> keep(i) by {
        let k = keep(i);
        if k {
            assert forall|j: int| 0 <= j < i && (#[trigger] s[j]).unacked() implies s[j].sidecar_id
                != s[i].sidecar_id by {}
        }
        if f(i) {
            assert forall|j: int|
                0 <= j < i && (#[trigger] v.sent[j]).time_acked is None
                    && v.sent[j].time_acked_sidecar is None implies v.sent[j].sidecar_id
                != v.sent[i].sidecar_id by {
                assert(s[j].unacked());
            }
        }
    }
    assert(forall|i: int| #[trigger] keep(i) <==> f(i));
    assert forall|i: int| #[trigger] g(i) <==> keep_in_flight(i) by {
        assert(g(i) <==> f(i) && s[i].in_flight);
    }
    lemma_pick_same(s, f, keep);
    lemma_pick_same(s, g, keep_in_flight);
    lemma_count_same(n, f, keep);
    lemma_count_same(n, g, keep_in_flight);
    lemma_bytes_same(s, s, g, keep_in_flight);
    lemma_count_bound(n, keep);
    if pick(s, keep_in_flight).len() > 0 {
        let i = lemma_pick_last(s, keep_in_flight);
        assert(keep_in_flight(i));
    } else {
        assert forall|i: int| 0 <= i < n implies !#[trigger] keep_in_flight(i) by {
            lemma_pick_none(s, keep_in_flight, i);
        }
    }
}

/// With ACK reduction, a report marks the packets that the proxy has received,
/// and the time since the last of them was sent is an RTT sample without delay.
/// Without it, a report acknowledges nothing.
pub proof fn lemma_echo_effect<C: CongestionControlOps>(
    m: RecoveryView<C>,
    ids: Set<u32>,
    now: Instant,
)
    requires
        m.wf(),
        now.in_range(),
    ensures
        ({
            let w = m.with_echo(ids, now);
            let v = m.spaces[2];
            let some = pick(v.sent, named(v.sent, ids)).len() > 0;
            &&& !m.sidecar.ack_reduction ==> w == m && m.echoed(ids).len() == 0
            &&& m.sidecar.ack_reduction ==> m.echoed(ids) == pick(v.sent, named(v.sent, ids))
            &&& m.sidecar.ack_reduction ==> w.spaces == m.spaces.update(2, v.after_echo(ids, now))
            &&& m.sidecar.ack_reduction && some ==> w.path == m.path.with_rtt(
                now.since(v.last_echo_sent(ids, now)),
                Duration { nanos: 0 },
                m.max_ack_delay,
                now,
            )
            &&& m.sidecar.ack_reduction && !some ==> w.path == m.path
            &&& w == (RecoveryView { spaces: w.spaces, path: w.path, ..m })
        }),
{
}

/// What a report does, in order: the packets that the proxy has received are
/// marked and give a sample, those that it misses are lost, counted and no
/// longer in flight, the algorithm is told of the loss, if there is one, and of
/// what was received, if there is anything.
///
/// `a` is the state between the two markings, and `b` the state in which the
/// algorithm is told.
pub proof fn lemma_report_order<C: CongestionControlOps>(
    m: RecoveryView<C>,
    acked_ids: Set<u32>,
    missing_ids: Set<u32>,
    now: Instant,
    a: RecoveryView<C>,
    b: RecoveryView<C>,
    c: RecoveryView<C>,
)
    requires
        m.wf(),
        now.in_range(),
        a == m.with_echo(acked_ids, now),
        ({
            let o = a.spaces[2].miss_outcome(missing_ids);
            &&& b.path == (CongestionState {
                bytes_in_flight: if a.path.bytes_in_flight >= o.lost_bytes {
                    (a.path.bytes_in_flight - o.lost_bytes) as usize
                } else {
                    0
                },
                ..a.path
            })
            &&& b.cc_ops == m.cc_ops
            &&& o.largest_lost_pkt is None ==> c.path == b.path && c.cc_ops == b.cc_ops
            &&& o.largest_lost_pkt is Some ==> c == b.with_congestion(
                o.lost_bytes,
                o.largest_lost_pkt->0.time_sent,
                Epoch::Application,
                now,
                Some(
                    if m.sidecar.ack_reduction {
                        QuackMetadata { near_subpath_numer: 40, near_subpath_denom: 41 }
                    } else {
                        QuackMetadata { near_subpath_numer: 2, near_subpath_denom: 152 }
                    },
                ),
            )
        }),
    ensures
        ({
            let w = m.with_quack_applied(acked_ids, missing_ids, now);
            let o = a.spaces[2].miss_outcome(missing_ids);
            let recs = records(m.echoed(acked_ids), now);
            let rate = c.path.delivery_rate.after_all_acked(recs, now).sampled(c.path.min_rtt);
            let told = c.cc_ops.after_acked(
                CongestionState { delivery_rate: rate, ..c.path },
                recs,
                Epoch::Application,
                now,
            );
            &&& recs.len() == 0 ==> w.path == c.path && w.cc_ops == c.cc_ops
            &&& recs.len() > 0 ==> w.path == told.1 && w.cc_ops == told.0
            &&& w.spaces == a.spaces.update(2, a.spaces[2].after_miss(missing_ids, now))
            &&& w.lost_count == (m.lost_count + o.lost_packets) as usize
            &&& w.bytes_lost == (m.bytes_lost + o.lost_bytes) as u64
            &&& m.quack_losses(acked_ids, missing_ids, now) == (o.lost_packets, o.lost_bytes)
            &&& w == (RecoveryView {
                spaces: w.spaces,
                path: w.path,
                cc_ops: w.cc_ops,
                lost_count: w.lost_count,
                bytes_lost: w.bytes_lost,
                ..m
            })
        }),
{
    assert(a.space(Epoch::Application) == a.spaces[2]);
}

/// With Reno, what a report does: the packets that the proxy has received are
/// marked and give a sample, those that it misses are lost, counted and no
/// longer in flight, the window is halved for them, and it grows by what was
/// received.
///
/// `a` is the state between the two markings.
pub proof fn lemma_reno_report(
    m: RecoveryView<Reno>,
    acked_ids: Set<u32>,
    missing_ids: Set<u32>,
    now: Instant,
    a: RecoveryView<Reno>,
)
    requires
        m.wf(),
        now.in_range(),
        a == m.with_echo(acked_ids, now),
    ensures
        ({
            let w = m.with_quack_applied(acked_ids, missing_ids, now);
            let v = a.spaces[2];
            let o = v.miss_outcome(missing_ids);
            let flying = less(a.path.bytes_in_flight, o.lost_bytes as int);
            let recovering = o.largest_lost_pkt is None || (
            a.path.congestion_recovery_start_time is Some
                && o.largest_lost_pkt->0.time_sent.nanos
                <= a.path.congestion_recovery_start_time->0.nanos);
            let half = a.path.congestion_window as int / 2;
            let window = if recovering {
                a.path.congestion_window as int
            } else if half >= 2 * a.path.max_datagram_size {
                half
            } else {
                2 * a.path.max_datagram_size as int
            };
            let told = CongestionState {
                bytes_in_flight: flying,
                congestion_window: window as usize,
                ssthresh: if recovering {
                    a.path.ssthresh
                } else {
                    window as usize
                },
                bytes_acked_ca: if recovering {
                    a.path.bytes_acked_ca
                } else {
                    (window / 2) as usize
                },
                congestion_recovery_start_time: if recovering {
                    a.path.congestion_recovery_start_time
                } else {
                    Some(now)
                },
                congestion_recovery_metadata: if recovering {
                    a.path.congestion_recovery_metadata
                } else if m.sidecar.ack_reduction {
                    Some(QuackMetadata { near_subpath_numer: 40, near_subpath_denom: 41 })
                } else {
                    Some(QuackMetadata { near_subpath_numer: 2, near_subpath_denom: 152 })
                },
                ..a.path
            };
            let recs = records(m.echoed(acked_ids), now);
            let rate = told.delivery_rate.after_all_acked(recs, now).sampled(told.min_rtt);
            &&& w.spaces == a.spaces.update(2, v.after_miss(missing_ids, now))
            &&& w.lost_count == (m.lost_count + o.lost_packets) as usize
            &&& w.bytes_lost == (m.bytes_lost + o.lost_bytes) as u64
            &&& m.quack_losses(acked_ids, missing_ids, now) == (o.lost_packets, o.lost_bytes)
            &&& recs.len() == 0 ==> w.path == told
            &&& recs.len() > 0 ==> w.path == all_acked(
                CongestionState { delivery_rate: rate, ..told },
                recs,
            )
            &&& w == (RecoveryView {
                spaces: w.spaces,
                path: w.path,
                lost_count: w.lost_count,
                bytes_lost: w.bytes_lost,
                ..m
            })
        }),
{
    assert(a.space(Epoch::Application) == a.spaces[2]);
}

} // verus!
