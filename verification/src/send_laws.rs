//! What sending a packet has to satisfy.
use vstd::prelude::*;

use crate::congestion::CongestionControlOps;
use crate::congestion::CongestionState;
use crate::delivery_rate::Rate;
use crate::hystart::Hystart;
use crate::model::pacing_rate;
use crate::model::HandshakeStatus;
use crate::model::RecoveryView;
use crate::model::SidecarView;
use crate::pacer::Pacer;
use crate::packet::Epoch;
use crate::prr::PRR;
use crate::reno::Reno;
use crate::sent::SentView;
use crate::space::SpaceView;
use crate::time::Duration;
use crate::time::Instant;
use crate::time::MAX_INSTANT_NANOS;

verus! {

/// A packet that is sent joins the end of its list, with the send time that
/// pacing gives it and with the state of the delivery rate estimate, and is
/// otherwise remembered as it is. It is counted once, in its own space only.
pub proof fn lemma_send_lists<C: CongestionControlOps>(
    m: RecoveryView<C>,
    pkt: SentView,
    e: Epoch,
    hs: HandshakeStatus,
    now: Instant,
    other: Epoch,
)
    requires
        m.wf(),
        m.has_room(pkt.size),
        other != e,
    ensures
        ({
            let w = m.after_sent(pkt, e, hs, now);
            let s = m.space(e);
            let t = w.space(e);
            let rate = w.path.delivery_rate;
            &&& t.sent == s.sent.push(
                SentView {
                    time_sent: w.path.pacer.next_time,
                    delivered: rate.delivered,
                    delivered_time: rate.delivered_time,
                    first_sent_time: rate.first_sent_time,
                    is_app_limited: rate.end_of_app_limited != 0,
                    ..pkt
                },
            )
            &&& rate.last_sent_packet == pkt.pkt_num
            &&& t.largest_sent_pkt >= pkt.pkt_num && t.largest_sent_pkt >= s.largest_sent_pkt
            &&& t.largest_sent_pkt == pkt.pkt_num || t.largest_sent_pkt == s.largest_sent_pkt
            &&& pkt.in_flight ==> t.in_flight_count == s.in_flight_count + 1
            &&& !pkt.in_flight ==> t.in_flight_count == s.in_flight_count
            &&& pkt.in_flight && pkt.ack_eliciting ==> t.time_of_last_sent_ack_eliciting_pkt
                == Some(now)
            &&& !(pkt.in_flight && pkt.ack_eliciting) ==> t.time_of_last_sent_ack_eliciting_pkt
                == s.time_of_last_sent_ack_eliciting_pkt
            &&& t == (SpaceView {
                sent: t.sent,
                largest_sent_pkt: t.largest_sent_pkt,
                in_flight_count: t.in_flight_count,
                time_of_last_sent_ack_eliciting_pkt: t.time_of_last_sent_ack_eliciting_pkt,
                ..s
            })
            &&& w.space(other) == m.space(other)
        }),
{
}

/// A packet that is sent is counted, and its identifier noted in the log of the
/// exchange with the proxy, if there is one. Thresholds, losses and the
/// backoff are left as they are. The timer is set anew if the packet is in
/// flight, and left as it is otherwise.
pub proof fn lemma_send_effect<C: CongestionControlOps>(
    m: RecoveryView<C>,
    pkt: SentView,
    e: Epoch,
    hs: HandshakeStatus,
    now: Instant,
)
    requires
        m.wf(),
        m.has_room(pkt.size),
    ensures
        ({
            let w = m.after_sent(pkt, e, hs, now);
            &&& w.bytes_sent == m.bytes_sent + pkt.size
            &&& pkt.ack_eliciting ==> w.outstanding_non_ack_eliciting == 0
            &&& !pkt.ack_eliciting ==> w.outstanding_non_ack_eliciting
                == m.outstanding_non_ack_eliciting + 1
            &&& m.sidecar.enabled ==> w.sidecar == (SidecarView {
                log: m.sidecar.log.push(pkt.sidecar_id),
                ..m.sidecar
            })
            &&& !m.sidecar.enabled ==> w.sidecar == m.sidecar
            &&& pkt.in_flight ==> w.loss_detection_timer == w.timer(hs, now)
            &&& !pkt.in_flight ==> w.loss_detection_timer == m.loss_detection_timer
            &&& w == (RecoveryView {
                bytes_sent: w.bytes_sent,
                outstanding_non_ack_eliciting: w.outstanding_non_ack_eliciting,
                sidecar: w.sidecar,
                loss_detection_timer: w.loss_detection_timer,
                spaces: w.spaces,
                path: w.path,
                cc_ops: w.cc_ops,
                ..m
            })
        }),
{
    let flying = m.with_departed(pkt, e, hs, now);
    let w = m.after_sent(pkt, e, hs, now);
    if pkt.in_flight {
        assert(flying.loss_detection_timer == flying.timer(hs, now));
        assert(w.loss_deadline() == flying.loss_deadline());
        assert(w.probe_deadline(hs, now) == flying.probe_deadline(hs, now));
    }
}

/// Once a packet has been sent, and unless the algorithm sets the rate itself,
/// the pacer sends the window five times in four smoothed RTTs, or as fast as
/// it is allowed to. That holds whatever the slow start threshold is.
pub proof fn lemma_pacing_rate<C: CongestionControlOps>(
    m: RecoveryView<C>,
    pkt: SentView,
    e: Epoch,
    hs: HandshakeStatus,
    now: Instant,
    srtt: Duration,
    rate: int,
)
    requires
        !m.after_sent(pkt, e, hs, now).cc_ops.custom_pacing(),
        m.after_sent(pkt, e, hs, now).path.smoothed_rtt == Some(srtt),
        srtt.nanos > 0,
        rate * (4 * srtt.nanos) <= 5 * m.after_sent(pkt, e, hs, now).path.congestion_window
            * 1_000_000_000 < (rate + 1) * (4 * srtt.nanos),
    ensures
        ({
            let p = m.after_sent(pkt, e, hs, now).path.pacer;
            &&& p.rate <= rate
            &&& p.max_pacing_rate is Some ==> p.rate <= p.max_pacing_rate->0
            &&& p.rate == rate || p.rate == u64::MAX || p.max_pacing_rate == Some(p.rate)
        }),
{
    let path = m.after_sent(pkt, e, hs, now).path;
    let num = 5 * path.congestion_window * 1_000_000_000;
    let den = 4 * srtt.nanos as int;
    let q = num / den;
    assert(q == rate) by (nonlinear_arith)
        requires
            den > 0,
            q == num / den,
            rate * den <= num < (rate + 1) * den,
    ;
}

/// An algorithm that sets the rate itself is not overruled.
pub proof fn lemma_custom_pacing<C: CongestionControlOps>(
    m: RecoveryView<C>,
    pkt: SentView,
    e: Epoch,
    hs: HandshakeStatus,
    now: Instant,
)
    requires
        m.after_sent(pkt, e, hs, now).cc_ops.custom_pacing(),
    ensures
        m.after_sent(pkt, e, hs, now).path.pacer.rate == m.with_departed(
            pkt,
            e,
            hs,
            now,
        ).path.pacer.rate,
{
}

/// With a smoothed RTT of zero, the rate is only limited by what is allowed.
pub proof fn lemma_pacing_rate_unbounded<C: CongestionControlOps>(
    m: RecoveryView<C>,
    pkt: SentView,
    e: Epoch,
    hs: HandshakeStatus,
    now: Instant,
)
    requires
        !m.after_sent(pkt, e, hs, now).cc_ops.custom_pacing(),
        m.after_sent(pkt, e, hs, now).path.smoothed_rtt == Some(Duration { nanos: 0 }),
        m.after_sent(pkt, e, hs, now).path.congestion_window > 0,
    ensures
        ({
            let p = m.after_sent(pkt, e, hs, now).path.pacer;
            &&& p.max_pacing_rate is Some ==> p.max_pacing_rate == Some(p.rate)
            &&& p.max_pacing_rate is None ==> p.rate == u64::MAX
        }),
{
}

/// With Reno, a packet in flight adds its size to what is in flight, and the
/// application limits the sender if the window is not full then. The window,
/// the threshold and the RTT estimate are left as they are, and the rate too
/// while there is no estimate.
pub proof fn lemma_reno_send(
    m: RecoveryView<Reno>,
    pkt: SentView,
    e: Epoch,
    hs: HandshakeStatus,
    now: Instant,
)
    requires
        m.wf(),
        m.has_room(pkt.size),
    ensures
        ({
            let s = m.path;
            let t = m.after_sent(pkt, e, hs, now).path;
            &&& pkt.in_flight ==> t.bytes_in_flight == s.bytes_in_flight + pkt.size
            &&& !pkt.in_flight ==> t.bytes_in_flight == s.bytes_in_flight
            &&& pkt.in_flight ==> t.app_limited == (s.bytes_in_flight + pkt.size
                < s.congestion_window)
            &&& !pkt.in_flight ==> t.app_limited == s.app_limited
            &&& pkt.in_flight && s.prr.snd_cnt >= pkt.size ==> t.prr.snd_cnt == s.prr.snd_cnt
                - pkt.size
            &&& pkt.in_flight && s.prr.snd_cnt < pkt.size ==> t.prr.snd_cnt == 0
            &&& pkt.in_flight && s.prr.prr_out + pkt.size <= usize::MAX ==> t.prr.prr_out
                == s.prr.prr_out + pkt.size
            &&& t.prr.prr_delivered == s.prr.prr_delivered && t.prr.recoverfs == s.prr.recoverfs
            &&& !pkt.in_flight ==> t.prr == s.prr
            &&& s.hystart.enabled && e is Application && s.congestion_window < s.ssthresh
                && s.hystart.window_end is None ==> t.hystart == (Hystart {
                window_end: Some(pkt.pkt_num),
                last_round_min_rtt: s.hystart.current_round_min_rtt,
                current_round_min_rtt: t.hystart.current_round_min_rtt,
                rtt_sample_count: 0,
                ..s.hystart
            })
            &&& !s.hystart.enabled || !(e is Application) || s.congestion_window >= s.ssthresh
                || s.hystart.window_end is Some ==> t.hystart == s.hystart
            &&& s.smoothed_rtt is None ==> t.pacer.rate == s.pacer.rate
            &&& t == (CongestionState {
                bytes_in_flight: t.bytes_in_flight,
                app_limited: t.app_limited,
                prr: t.prr,
                hystart: t.hystart,
                pacer: t.pacer,
                delivery_rate: t.delivery_rate,
                ..s
            })
        }),
{
}

/// An algorithm is told of a packet in flight, once the application is known to
/// be the limit or not, and not told of others.
pub proof fn lemma_send_told<C: CongestionControlOps>(
    m: RecoveryView<C>,
    pkt: SentView,
    e: Epoch,
    hs: HandshakeStatus,
    now: Instant,
)
    requires
        m.wf(),
        m.has_room(pkt.size),
    ensures
        ({
            let w = m.after_sent(pkt, e, hs, now);
            let told = m.cc_ops.after_sent(
                CongestionState {
                    app_limited: m.path.bytes_in_flight + pkt.size < m.path.congestion_window,
                    ..m.path
                },
                pkt.size,
                now,
            );
            &&& pkt.in_flight ==> w.cc_ops == told.0
            &&& pkt.in_flight ==> w.path == (CongestionState {
                prr: w.path.prr,
                hystart: w.path.hystart,
                pacer: w.path.pacer,
                delivery_rate: w.path.delivery_rate,
                ..told.1
            })
            &&& !pkt.in_flight ==> w.cc_ops == m.cc_ops
            &&& !pkt.in_flight ==> w.path == (CongestionState {
                hystart: w.path.hystart,
                pacer: w.path.pacer,
                delivery_rate: w.path.delivery_rate,
                ..m.path
            })
        }),
{
}

/// With Reno, a packet passes the pacer once the rate has been set. It counts
/// with its size if pacing is on, it belongs to the application and ten
/// datagrams' worth of bytes were sent before it, and else as if it were empty.
pub proof fn lemma_reno_send_paced(
    m: RecoveryView<Reno>,
    pkt: SentView,
    e: Epoch,
    hs: HandshakeStatus,
    now: Instant,
    p: Pacer,
)
    requires
        m.wf(),
        m.has_room(pkt.size),
        m.path.smoothed_rtt is None ==> p == m.path.pacer,
        m.path.smoothed_rtt is Some ==> p == m.path.pacer.with_rate(
            m.path.send_quantum,
            pacing_rate(m.path.congestion_window, m.path.smoothed_rtt->0),
            now,
        ),
    ensures
        ({
            let q = m.after_sent(pkt, e, hs, now).path.pacer;
            let counts = m.path.pacer.enabled && e is Application && m.bytes_sent >= 10
                * m.path.max_datagram_size;
            &&& counts ==> q == p.after_sent(pkt.size, now)
            &&& !counts ==> q == p.after_sent(0, now)
        }),
{
}

/// With Reno, the clock of the delivery rate estimate starts anew with a packet
/// before which nothing was in flight, and otherwise runs on. A packet that is
/// not in flight is taken for one that is, so it does so if it is as large as
/// all that is.
pub proof fn lemma_reno_send_rate(
    m: RecoveryView<Reno>,
    pkt: SentView,
    e: Epoch,
    hs: HandshakeStatus,
    now: Instant,
)
    requires
        m.wf(),
        m.has_room(pkt.size),
    ensures
        ({
            let s = m.path;
            let t = m.after_sent(pkt, e, hs, now).path;
            let restarts = if pkt.in_flight {
                s.bytes_in_flight == 0
            } else {
                s.bytes_in_flight == pkt.size
            };
            &&& restarts ==> t.delivery_rate == (Rate {
                first_sent_time: t.pacer.next_time,
                delivered_time: t.pacer.next_time,
                last_sent_packet: pkt.pkt_num,
                ..s.delivery_rate
            })
            &&& !restarts ==> t.delivery_rate == (Rate {
                last_sent_packet: pkt.pkt_num,
                ..s.delivery_rate
            })
        }),
{
}

/// Packets count for pacing if pacing is on, they belong to the application and
/// ten datagrams' worth of bytes were sent before them. Others pass the pacer as
/// if they were empty.
pub proof fn lemma_who_is_paced<C: CongestionControlOps>(
    m: RecoveryView<C>,
    size: usize,
    e: Epoch,
    now: Instant,
)
    ensures
        ({
            let counts = m.path.pacer.enabled && e is Application && m.bytes_sent >= 10
                * m.path.max_datagram_size;
            let w = m.with_paced(size, e, now);
            &&& counts ==> w.path.pacer == m.path.pacer.after_sent(size, now)
            &&& !counts ==> w.path.pacer == m.path.pacer.after_sent(0, now)
            &&& w == m.with_path(CongestionState { pacer: w.path.pacer, ..m.path })
        }),
{
}

/// The packets of a burst share their send time. Those of the burst after it
/// leave later by the time that the burst takes at the pacing rate, to the
/// nearest nanosecond. A burst ends when it is full or with a packet of another
/// size.
pub proof fn lemma_burst_pause(
    p: Pacer,
    size: usize,
    next_size: usize,
    now: Instant,
    later: Instant,
)
    requires
        p.wf(),
        now.in_range(),
        later.in_range(),
        p.rate > 0,
        p.iv.nanos == 0,
        now.nanos <= p.last_update.nanos,
        now.nanos <= p.next_time.nanos,
        p.used + size <= usize::MAX,
        p.used + size > 0,
        later.nanos <= p.next_time.nanos <= 0x80_0000_0000_0000_0000_0000,
        (p.used + size) * 1_000_000_000 <= 0x40_0000_0000_0000_0000_0000 * p.rate,
    ensures
        ({
            let q = p.after_sent(size, now);
            let r = q.after_sent(next_size, later);
            let full = p.used + size >= p.capacity || (p.last_packet_size is Some
                && p.last_packet_size->0 != size);
            let pause = r.next_time.nanos - p.next_time.nanos;
            &&& q.next_time == p.next_time
            &&& !full ==> pause == 0 && q.used == p.used + size
            &&& full ==> q.used == 0 && q.last_update == now
            &&& full ==> 2 * p.rate * pause <= 2 * (p.used + size) * 1_000_000_000 + p.rate < 2
                * p.rate * (pause + 1)
            &&& q.rate == p.rate && q.capacity == p.capacity
            &&& q.last_packet_size == Some(size)
        }),
{
    let b = p.used + size;
    let rate = p.rate as int;
    let num = 2 * b * 1_000_000_000 + rate;
    let den = 2 * rate;
    let d = num / den;
    assert(den * d <= num < den * (d + 1)) by (nonlinear_arith)
        requires
            den > 0,
            d == num / den,
    ;
    assert(0 <= d <= 0x40_0000_0000_0000_0000_0001) by (nonlinear_arith)
        requires
            den >= 2,
            d == num / den,
            0 <= num < 0x40_0000_0000_0000_0000_0001 * den,
    ;
}

/// A burst for which more time has gone by than it takes at the pacing rate is
/// given up: the packet is the first of a new one and may leave at once.
pub proof fn lemma_late_burst(p: Pacer, size: usize, now: Instant, interval: int)
    requires
        p.wf(),
        now.in_range(),
        p.rate > 0,
        p.iv.nanos == 0,
        p.next_time.nanos <= now.nanos,
        interval >= 0,
        2 * p.rate * interval <= 2 * p.capacity * 1_000_000_000 + p.rate < 2 * p.rate * (interval
            + 1),
    ensures
        ({
            let q = p.after_sent(size, now);
            let late = now.nanos - p.last_update.nanos > interval;
            &&& late ==> q.next_time == now
            &&& !late ==> q.next_time == p.next_time
            &&& late && size < p.capacity ==> q.used == size && q.iv.nanos == 0
            &&& !late && p.used + size < p.capacity && p.last_packet_size is None ==> q.used
                == p.used + size && q.iv.nanos == 0
        }),
{
    let rate = p.rate as int;
    let num = 2 * p.capacity * 1_000_000_000 + rate;
    let den = 2 * rate;
    let d = num / den;
    assert(d == interval) by (nonlinear_arith)
        requires
            den > 0,
            d == num / den,
            den * interval <= num < den * (interval + 1),
    ;
}

/// The pause that a burst has earned is taken from the current time if the send
/// time lies behind.
pub proof fn lemma_pause_from_now(p: Pacer, size: usize, now: Instant)
    requires
        p.wf(),
        now.in_range(),
        p.rate > 0,
        p.iv.nanos > 0,
        p.next_time.nanos <= now.nanos,
        now.nanos + p.iv.nanos <= MAX_INSTANT_NANOS,
    ensures
        p.after_sent(size, now).next_time.nanos == now.nanos + p.iv.nanos,
{
}

/// A new pacer has no rate yet, and its burst is a window of whole datagrams.
pub proof fn lemma_new_pacer(
    enabled: bool,
    window: usize,
    rate: u64,
    size: usize,
    max_pacing_rate: Option<u64>,
    now: Instant,
)
    requires
        size > 0,
    ensures
        ({
            let p = Pacer::fresh(enabled, window, rate, size, max_pacing_rate, now);
            &&& p.enabled == enabled
            &&& p.capacity as int % size as int == 0
            &&& p.capacity <= window < p.capacity + size
            &&& p.rate <= rate
            &&& p.rate == rate || max_pacing_rate == Some(p.rate)
            &&& max_pacing_rate is Some ==> p.rate <= max_pacing_rate->0
            &&& p.max_pacing_rate == max_pacing_rate
            &&& p.max_datagram_size == size
            &&& p.next_time == now && p.last_update == now
            &&& p.used == 0 && p.iv.nanos == 0 && p.last_packet_size is None
        }),
{
    let k = window / size;
    assert(k * size <= window < k * size + size && (k * size) as int % size as int == 0)
        by (nonlinear_arith)
        requires
            size > 0,
            k == window / size,
    ;
}

/// While there is no rate, nothing is paced: every packet may leave at once.
pub proof fn lemma_unpaced(p: Pacer, size: usize, now: Instant)
    requires
        p.rate == 0,
    ensures
        ({
            let q = p.after_sent(size, now);
            &&& now.nanos >= p.next_time.nanos ==> q.next_time.nanos == now.nanos
            &&& now.nanos < p.next_time.nanos ==> q.next_time.nanos == p.next_time.nanos
            &&& q.used == 0 && q.iv.nanos == 0 && q.rate == 0 && q.capacity == p.capacity
        }),
{
}

/// A new rate is limited to the maximum, and the burst to whole datagrams.
pub proof fn lemma_rate_set(p: Pacer, capacity: usize, rate: u64, now: Instant)
    requires
        p.max_datagram_size > 0,
    ensures
        ({
            let q = p.with_rate(capacity, rate, now);
            &&& q.rate <= rate
            &&& q.max_pacing_rate == p.max_pacing_rate
            &&& p.max_pacing_rate is None ==> q.rate == rate
            &&& p.max_pacing_rate is Some ==> q.rate <= p.max_pacing_rate->0 && (q.rate == rate
                || q.rate == p.max_pacing_rate->0)
            &&& q.capacity as int % p.max_datagram_size as int == 0
            &&& q.capacity <= capacity < q.capacity + p.max_datagram_size
            &&& q.capacity == p.capacity ==> q.used == p.used && q.next_time == p.next_time
            &&& q.capacity != p.capacity ==> q.used == 0
        }),
{
    let k = capacity / p.max_datagram_size;
    let d = p.max_datagram_size;
    assert(k * d <= capacity < k * d + d && (k * d) as int % d as int == 0) by (nonlinear_arith)
        requires
            d > 0,
            k == capacity / d,
    ;
}

/// A rate that is set takes effect with bursts of the send quantum.
pub proof fn lemma_rate_taken<C: CongestionControlOps>(
    m: RecoveryView<C>,
    rate: u64,
    now: Instant,
)
    requires
        m.path.pacer.max_datagram_size > 0,
    ensures
        ({
            let w = m.with_rate(rate, now);
            let p = w.path.pacer;
            let most = m.path.pacer.max_pacing_rate;
            &&& p.rate <= rate
            &&& p.rate == rate || most == Some(p.rate)
            &&& most is Some ==> p.rate <= most->0
            &&& p.capacity <= m.path.send_quantum < p.capacity + p.max_datagram_size
            &&& p.capacity as int % p.max_datagram_size as int == 0
            &&& w == m.with_path(CongestionState { pacer: p, ..m.path })
        }),
{
    lemma_rate_set(m.path.pacer, m.path.send_quantum, rate, now);
}

/// When the datagram size changes, pacing starts anew: without a rate, at the
/// current time and with bursts of the window, in whole datagrams of the new
/// size. Whether it is on and how fast it may be stays.
pub proof fn lemma_datagram_size_repaces<C: CongestionControlOps>(
    m: RecoveryView<C>,
    new_size: usize,
    now: Instant,
)
    requires
        m.wf(),
        new_size > 0,
        m.path.max_datagram_size > 0,
    ensures
        ({
            let w = m.with_max_datagram_size(new_size, now).path;
            let p = w.pacer;
            &&& p.enabled == m.path.pacer.enabled
            &&& p.max_pacing_rate == m.path.pacer.max_pacing_rate
            &&& p.rate == 0
            &&& p.max_datagram_size == w.max_datagram_size
            &&& p.capacity as int % w.max_datagram_size as int == 0
            &&& p.capacity <= w.congestion_window < p.capacity + w.max_datagram_size
            &&& p.next_time == now && p.last_update == now
            &&& p.used == 0 && p.iv.nanos == 0 && p.last_packet_size is None
        }),
{
    let w = m.with_max_datagram_size(new_size, now).path;
    lemma_new_pacer(
        m.path.pacer.enabled,
        w.congestion_window,
        0,
        w.max_datagram_size,
        m.path.pacer.max_pacing_rate,
        now,
    );
}

/// The application can be declared to be the limit, or not.
pub proof fn lemma_app_limit_set<C: CongestionControlOps>(m: RecoveryView<C>, v: bool)
    ensures
        m.with_app_limited(v).path.app_limited == v,
        m.with_app_limited(v) == m.with_path(CongestionState { app_limited: v, ..m.path }),
{
}

/// The reduction of the rate during recovery takes note of what is sent.
pub proof fn lemma_prr_sent(p: PRR, sent: usize)
    ensures
        p.snd_cnt >= sent ==> p.after_sent(sent).snd_cnt == p.snd_cnt - sent,
        p.snd_cnt < sent ==> p.after_sent(sent).snd_cnt == 0,
{
}

} // verus!
