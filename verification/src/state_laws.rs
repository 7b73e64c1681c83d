//! What a new path looks like, what is reported of a path, and how it starts
//! anew.
use vstd::prelude::*;

use crate::algorithms::CongestionControl;
use crate::congestion::CongestionControlAlgorithm;
use crate::congestion::CongestionControlOps;
use crate::congestion::CongestionState;
use crate::congestion::QuackMetadata;
use crate::delivery_rate::Rate;
use crate::error::Error;
use crate::hystart::Hystart;
use crate::metrics::QlogMetrics;
use crate::model::RecoveryView;
use crate::packet::Epoch;
use crate::recovery::Config;
use crate::recovery::RecoveryConfig;
use crate::reno::Reno;
use crate::sent::Acked;
use crate::space::SpaceView;
use crate::time::Instant;

verus! {

/// On a new path nothing has been sent, lost or acknowledged. Packets are lost
/// three numbers behind the largest acknowledged one, or after nine eighths of
/// an RTT.
pub proof fn lemma_new_path<C: CongestionControlOps>(
    config: RecoveryConfig<C>,
    now: Instant,
    i: int,
)
    requires
        config.wf(),
        0 <= i < 3,
    ensures
        ({
            let m = config.initial(now);
            let s = m.spaces[i];
            &&& m.spaces.len() == 3
            &&& s.sent.len() == 0 && s.lost.len() == 0 && s.acked.len() == 0
            &&& s.largest_acked_pkt == u64::MAX && s.largest_sent_pkt == 0
            &&& s.loss_time is None && s.time_of_last_sent_ack_eliciting_pkt is None
            &&& s.loss_probes == 0 && s.in_flight_count == 0
            &&& m.loss_detection_timer is None
            &&& m.pto_count == 0
            &&& m.max_ack_delay == config.max_ack_delay
            &&& m.lost_count == 0 && m.lost_spurious_count == 0
            &&& m.bytes_sent == 0 && m.bytes_lost == 0
            &&& m.outstanding_non_ack_eliciting == 0
            &&& m.pkt_thresh == 3
            &&& m.time_thresh == 9
            &&& m.cc_ops == config.cc_ops
            &&& m.sidecar.enabled <==> config.sidecar_threshold > 0
            &&& m.sidecar.ack_reduction == config.ack_reduction
            &&& m.sidecar.quack_reset == config.quack_reset
            &&& m.sidecar.quack_threshold == config.sidecar_threshold
            &&& m.sidecar.quack_count == 0 && m.sidecar.last_decoded_quack_count == 0
            &&& m.sidecar.quack_epoch == 0
            &&& m.sidecar.last_quack_reset == now
            &&& m.sidecar.log.len() == 0 && m.sidecar.next_log_index == 0
        }),
{
}

/// The window of a new path holds ten datagrams, and there is neither a
/// threshold for slow start nor an estimate of the RTT.
pub proof fn lemma_new_window<C: CongestionControlOps>(config: RecoveryConfig<C>, now: Instant)
    requires
        config.wf(),
    ensures
        ({
            let p = config.initial(now).path;
            let size = config.max_send_udp_payload_size;
            &&& p.congestion_window == 10 * size
            &&& p.send_quantum == 10 * size
            &&& p.max_datagram_size == size
            &&& p.bytes_in_flight == 0
            &&& p.ssthresh == usize::MAX
            &&& p.bytes_acked_sl == 0 && p.bytes_acked_ca == 0
            &&& p.congestion_recovery_start_time is None
            &&& p.congestion_recovery_metadata is None
            &&& !p.app_limited
            &&& p.latest_rtt.nanos == 0
            &&& p.min_rtt.nanos == 0
            &&& p.smoothed_rtt is None
            &&& 2 * p.rttvar.nanos == 333_000_000
            &&& p.pto_nanos() == 999_000_000
            &&& p.hystart.enabled == config.hystart
            &&& p.hystart.window_end is None
            &&& p.pacer.enabled == config.pacing
            &&& p.pacer.max_pacing_rate == config.max_pacing_rate
            &&& p.pacer.rate == 0
            &&& p.pacer.next_time == now
            &&& p.pacer.used == 0
            &&& p.delivery_rate.delivered == 0
            &&& p.delivery_rate.delivered_time == now
            &&& p.delivery_rate.first_sent_time == now
            &&& p.delivery_rate.end_of_app_limited == 0
            &&& p.prr.snd_cnt == 0 && p.prr.prr_out == 0 && p.prr.prr_delivered == 0
                && p.prr.recoverfs == 0
        }),
{
}

/// The settings of a connection are taken over as they are, without a delay of
/// the peer's acknowledgements.
pub proof fn lemma_settings<C: CongestionControlOps>(config: Config, cc_ops: C)
    ensures
        ({
            let r = RecoveryConfig::with_ops(config, cc_ops);
            &&& r.max_send_udp_payload_size == config.max_send_udp_payload_size
            &&& r.max_ack_delay.nanos == 0
            &&& r.cc_ops == cc_ops
            &&& r.hystart == config.hystart
            &&& r.pacing == config.pacing
            &&& r.sidecar_threshold == config.sidecar_threshold
            &&& r.quack_reset == config.quack_reset
            &&& r.max_pacing_rate == config.max_pacing_rate
            &&& r.ack_reduction == config.ack_reduction
        }),
{
}

/// The three algorithms have one string form each, and nothing else is the
/// string form of one.
pub proof fn lemma_string_forms(name: Seq<char>)
    ensures
        CongestionControlAlgorithm::named(name) == Ok::<CongestionControlAlgorithm, Error>(
            CongestionControlAlgorithm::Reno,
        ) <==> name == "reno"@,
        CongestionControlAlgorithm::named(name) == Ok::<CongestionControlAlgorithm, Error>(
            CongestionControlAlgorithm::CUBIC,
        ) <==> name == "cubic"@,
        CongestionControlAlgorithm::named(name) == Ok::<CongestionControlAlgorithm, Error>(
            CongestionControlAlgorithm::BBR,
        ) <==> name == "bbr"@,
        CongestionControlAlgorithm::named(name) is Err ==> CongestionControlAlgorithm::named(name)
            == Err::<CongestionControlAlgorithm, Error>(Error::CongestionControl),
{
    reveal_strlit("reno");
    reveal_strlit("cubic");
    reveal_strlit("bbr");
    assert("reno"@.len() == 4);
    assert("cubic"@.len() == 5);
    assert("bbr"@.len() == 3);
}

/// The algorithm is chosen by its name, and each name stands for one.
pub proof fn lemma_named_algorithm<U: CongestionControlOps, B: CongestionControlOps>(
    algo: CongestionControlAlgorithm,
)
    ensures
        algo is Reno <==> CongestionControl::<U, B>::of(algo) is Reno,
        algo is CUBIC <==> CongestionControl::<U, B>::of(algo) is Cubic,
        algo is BBR <==> CongestionControl::<U, B>::of(algo) is Bbr,
{
}

/// The chosen algorithm is told of everything, and no other is, if it is CUBIC.
pub proof fn lemma_chosen_cubic<U: CongestionControlOps, B: CongestionControlOps>(
    ops: U,
    s: CongestionState,
    size: usize,
    packets: Seq<Acked>,
    time_sent: Instant,
    e: Epoch,
    now: Instant,
    metadata: Option<QuackMetadata>,
)
    ensures
        ({
            let c = CongestionControl::<U, B>::Cubic(ops);
            &&& c.after_init(s) == (
                CongestionControl::<U, B>::Cubic(ops.after_init(s).0),
                ops.after_init(s).1,
            )
            &&& c.after_reset(s) == (
                CongestionControl::<U, B>::Cubic(ops.after_reset(s).0),
                ops.after_reset(s).1,
            )
            &&& c.after_sent(s, size, now) == (
                CongestionControl::<U, B>::Cubic(ops.after_sent(s, size, now).0),
                ops.after_sent(s, size, now).1,
            )
            &&& c.after_acked(s, packets, e, now) == (
                CongestionControl::<U, B>::Cubic(ops.after_acked(s, packets, e, now).0),
                ops.after_acked(s, packets, e, now).1,
                ops.after_acked(s, packets, e, now).2,
            )
            &&& c.after_congestion(s, size, time_sent, e, now, metadata) == (
                CongestionControl::<U, B>::Cubic(
                    ops.after_congestion(s, size, time_sent, e, now, metadata).0,
                ),
                ops.after_congestion(s, size, time_sent, e, now, metadata).1,
            )
            &&& c.after_collapse(s) == (
                CongestionControl::<U, B>::Cubic(ops.after_collapse(s).0),
                ops.after_collapse(s).1,
            )
            &&& c.after_checkpoint(s) == (
                CongestionControl::<U, B>::Cubic(ops.after_checkpoint(s).0),
                ops.after_checkpoint(s).1,
            )
            &&& c.after_rollback(s) == (
                CongestionControl::<U, B>::Cubic(ops.after_rollback(s).0),
                ops.after_rollback(s).1,
                ops.after_rollback(s).2,
            )
            &&& c.custom_pacing() == ops.custom_pacing()
        }),
{
}

/// So it is if the algorithm is BBR.
pub proof fn lemma_chosen_bbr<U: CongestionControlOps, B: CongestionControlOps>(
    ops: B,
    s: CongestionState,
    size: usize,
    packets: Seq<Acked>,
    time_sent: Instant,
    e: Epoch,
    now: Instant,
    metadata: Option<QuackMetadata>,
)
    ensures
        ({
            let c = CongestionControl::<U, B>::Bbr(ops);
            &&& c.after_init(s) == (
                CongestionControl::<U, B>::Bbr(ops.after_init(s).0),
                ops.after_init(s).1,
            )
            &&& c.after_reset(s) == (
                CongestionControl::<U, B>::Bbr(ops.after_reset(s).0),
                ops.after_reset(s).1,
            )
            &&& c.after_sent(s, size, now) == (
                CongestionControl::<U, B>::Bbr(ops.after_sent(s, size, now).0),
                ops.after_sent(s, size, now).1,
            )
            &&& c.after_acked(s, packets, e, now) == (
                CongestionControl::<U, B>::Bbr(ops.after_acked(s, packets, e, now).0),
                ops.after_acked(s, packets, e, now).1,
                ops.after_acked(s, packets, e, now).2,
            )
            &&& c.after_congestion(s, size, time_sent, e, now, metadata) == (
                CongestionControl::<U, B>::Bbr(
                    ops.after_congestion(s, size, time_sent, e, now, metadata).0,
                ),
                ops.after_congestion(s, size, time_sent, e, now, metadata).1,
            )
            &&& c.after_collapse(s) == (
                CongestionControl::<U, B>::Bbr(ops.after_collapse(s).0),
                ops.after_collapse(s).1,
            )
            &&& c.after_checkpoint(s) == (
                CongestionControl::<U, B>::Bbr(ops.after_checkpoint(s).0),
                ops.after_checkpoint(s).1,
            )
            &&& c.after_rollback(s) == (
                CongestionControl::<U, B>::Bbr(ops.after_rollback(s).0),
                ops.after_rollback(s).1,
                ops.after_rollback(s).2,
            )
            &&& c.custom_pacing() == ops.custom_pacing()
        }),
{
}

/// So it is if the algorithm is Reno.
pub proof fn lemma_chosen_reno<U: CongestionControlOps, B: CongestionControlOps>(
    ops: Reno,
    s: CongestionState,
    size: usize,
    packets: Seq<Acked>,
    time_sent: Instant,
    e: Epoch,
    now: Instant,
    metadata: Option<QuackMetadata>,
)
    ensures
        ({
            let c = CongestionControl::<U, B>::Reno(ops);
            &&& c.after_init(s) == (
                CongestionControl::<U, B>::Reno(ops.after_init(s).0),
                ops.after_init(s).1,
            )
            &&& c.after_reset(s) == (
                CongestionControl::<U, B>::Reno(ops.after_reset(s).0),
                ops.after_reset(s).1,
            )
            &&& c.after_sent(s, size, now) == (
                CongestionControl::<U, B>::Reno(ops.after_sent(s, size, now).0),
                ops.after_sent(s, size, now).1,
            )
            &&& c.after_acked(s, packets, e, now) == (
                CongestionControl::<U, B>::Reno(ops.after_acked(s, packets, e, now).0),
                ops.after_acked(s, packets, e, now).1,
                ops.after_acked(s, packets, e, now).2,
            )
            &&& c.after_congestion(s, size, time_sent, e, now, metadata) == (
                CongestionControl::<U, B>::Reno(
                    ops.after_congestion(s, size, time_sent, e, now, metadata).0,
                ),
                ops.after_congestion(s, size, time_sent, e, now, metadata).1,
            )
            &&& c.after_collapse(s) == (
                CongestionControl::<U, B>::Reno(ops.after_collapse(s).0),
                ops.after_collapse(s).1,
            )
            &&& c.after_checkpoint(s) == (
                CongestionControl::<U, B>::Reno(ops.after_checkpoint(s).0),
                ops.after_checkpoint(s).1,
            )
            &&& c.after_rollback(s) == (
                CongestionControl::<U, B>::Reno(ops.after_rollback(s).0),
                ops.after_rollback(s).1,
                ops.after_rollback(s).2,
            )
            &&& c.custom_pacing() == ops.custom_pacing()
        }),
{
}

/// The algorithm is told of a loss after it has been asked to remember the
/// window, which it is unless the packet was sent in the current recovery
/// period.
pub proof fn lemma_loss_is_told<C: CongestionControlOps>(
    m: RecoveryView<C>,
    lost_bytes: usize,
    time_sent: Instant,
    e: Epoch,
    now: Instant,
    metadata: Option<QuackMetadata>,
)
    ensures
        ({
            let w = m.with_congestion(lost_bytes, time_sent, e, now, metadata);
            let (ops, path) = m.cc_ops.after_checkpoint(m.path);
            let recovering = m.path.congestion_recovery_start_time is Some && time_sent.nanos
                <= m.path.congestion_recovery_start_time->0.nanos;
            &&& recovering ==> (w.cc_ops, w.path) == m.cc_ops.after_congestion(
                m.path,
                lost_bytes,
                time_sent,
                e,
                now,
                metadata,
            )
            &&& !recovering ==> (w.cc_ops, w.path) == ops.after_congestion(
                path,
                lost_bytes,
                time_sent,
                e,
                now,
                metadata,
            )
            &&& w == (RecoveryView { cc_ops: w.cc_ops, path: w.path, ..m })
        }),
{
}

/// A loss that was spurious is undone by the algorithm, and only then.
pub proof fn lemma_spurious_loss_undone<C: CongestionControlOps>(m: RecoveryView<C>, undo: bool)
    ensures
        !undo ==> m.with_rollback(undo) == m,
        undo ==> m.with_rollback(undo) == (RecoveryView {
            cc_ops: m.cc_ops.after_rollback(m.path).0,
            path: m.cc_ops.after_rollback(m.path).1,
            ..m
        }),
{
}

/// Any number of bytes may be sent while a probe is due. Otherwise the window
/// less what is in flight, and what the rate reduction allows on top.
pub proof fn lemma_window_left<C: CongestionControlOps>(m: RecoveryView<C>)
    requires
        m.spaces.len() == 3,
    ensures
        ({
            let p = m.path;
            let probing = exists|i: int| 0 <= i < 3 && (#[trigger] m.spaces[i]).loss_probes > 0;
            &&& probing ==> m.window_left() == usize::MAX
            &&& !probing && p.congestion_window >= p.bytes_in_flight ==> m.window_left()
                == p.congestion_window - p.bytes_in_flight + p.prr.snd_cnt
            &&& !probing && p.congestion_window < p.bytes_in_flight ==> m.window_left()
                == p.prr.snd_cnt
        }),
{
    let probing = exists|i: int| 0 <= i < 3 && (#[trigger] m.spaces[i]).loss_probes > 0;
    if probing {
        let i = choose|i: int| 0 <= i < 3 && (#[trigger] m.spaces[i]).loss_probes > 0;
        assert(i == 0 || i == 1 || i == 2);
    } else {
        assert(!(m.spaces[0].loss_probes > 0));
        assert(!(m.spaces[1].loss_probes > 0));
        assert(!(m.spaces[2].loss_probes > 0));
    }
}

/// An acknowledgement is to be elicited while a probe is due in the space, and
/// once 24 packets in a row have not elicited one.
pub proof fn lemma_when_to_elicit<C: CongestionControlOps>(m: RecoveryView<C>, e: Epoch)
    ensures
        m.elicits(e) <==> m.space(e).loss_probes > 0 || m.outstanding_non_ack_eliciting >= 24,
{
}

/// The figures that are reported are those of the path. A report holds those
/// that have changed, with their latest values.
pub proof fn lemma_figures<C: CongestionControlOps>(m: RecoveryView<C>, before: QlogMetrics)
    ensures
        ({
            let f = m.metrics();
            let r = before.report(f);
            &&& f.min_rtt == m.path.min_rtt
            &&& m.path.smoothed_rtt is Some ==> f.smoothed_rtt == m.path.smoothed_rtt->0
            &&& m.path.smoothed_rtt is None ==> f.smoothed_rtt.nanos == 333_000_000
            &&& f.latest_rtt == m.path.latest_rtt
            &&& f.rttvar == m.path.rttvar
            &&& f.cwnd == m.path.congestion_window
            &&& f.bytes_in_flight == m.path.bytes_in_flight
            &&& f.ssthresh == m.path.ssthresh
            &&& f.pacing_rate == m.path.pacer.rate
            &&& before.min_rtt != f.min_rtt ==> r.min_rtt == Some(f.min_rtt)
            &&& before.min_rtt == f.min_rtt ==> r.min_rtt is None
            &&& before.smoothed_rtt != f.smoothed_rtt ==> r.smoothed_rtt == Some(f.smoothed_rtt)
            &&& before.smoothed_rtt == f.smoothed_rtt ==> r.smoothed_rtt is None
            &&& before.latest_rtt != f.latest_rtt ==> r.latest_rtt == Some(f.latest_rtt)
            &&& before.latest_rtt == f.latest_rtt ==> r.latest_rtt is None
            &&& before.rttvar != f.rttvar ==> r.rtt_variance == Some(f.rttvar)
            &&& before.rttvar == f.rttvar ==> r.rtt_variance is None
            &&& before.cwnd != f.cwnd ==> r.congestion_window == Some(f.cwnd)
            &&& before.cwnd == f.cwnd ==> r.congestion_window is None
            &&& before.bytes_in_flight != f.bytes_in_flight ==> r.bytes_in_flight == Some(
                f.bytes_in_flight,
            )
            &&& before.bytes_in_flight == f.bytes_in_flight ==> r.bytes_in_flight is None
            &&& before.ssthresh != f.ssthresh ==> r.ssthresh == Some(f.ssthresh)
            &&& before.ssthresh == f.ssthresh ==> r.ssthresh is None
            &&& before.pacing_rate != f.pacing_rate ==> r.pacing_rate == Some(f.pacing_rate)
            &&& before.pacing_rate == f.pacing_rate ==> r.pacing_rate is None
        }),
{
}

/// Before the first report nothing has been reported.
pub proof fn lemma_nothing_reported()
    ensures
        ({
            let z = QlogMetrics::zero();
            &&& z.min_rtt.nanos == 0 && z.smoothed_rtt.nanos == 0 && z.latest_rtt.nanos == 0
                && z.rttvar.nanos == 0
            &&& z.cwnd == 0 && z.bytes_in_flight == 0 && z.ssthresh == 0 && z.pacing_rate == 0
        }),
{
}

/// An algorithm is asked to start anew once the window, the threshold and the
/// recovery period are reset. It is set up with the path as it is.
pub proof fn lemma_start_told<C: CongestionControlOps>(m: RecoveryView<C>)
    requires
        m.wf(),
    ensures
        ({
            let w = m.after_reset();
            let told = m.cc_ops.after_reset(
                CongestionState {
                    congestion_window: (10 * m.path.max_datagram_size) as usize,
                    ssthresh: usize::MAX,
                    congestion_recovery_start_time: None,
                    congestion_recovery_metadata: None,
                    ..m.path
                },
            );
            &&& w.cc_ops == told.0
            &&& w.path == (CongestionState {
                hystart: w.path.hystart,
                prr: w.path.prr,
                ..told.1
            })
        }),
        (m.after_init().cc_ops, m.after_init().path) == m.cc_ops.after_init(m.path),
        m.after_init() == (RecoveryView {
            cc_ops: m.after_init().cc_ops,
            path: m.after_init().path,
            ..m
        }),
        (m.collapsed().cc_ops, m.collapsed().path) == m.cc_ops.after_collapse(m.path),
{
}

/// With Reno, a path that starts anew has the initial window and no threshold,
/// and is in no recovery period. No packet counts as in flight in its space,
/// but the bytes in flight and the RTT estimate stay.
pub proof fn lemma_reno_starts_anew(m: RecoveryView<Reno>, i: int)
    requires
        m.wf(),
        0 <= i < 3,
    ensures
        ({
            let w = m.after_reset();
            let p = w.path;
            &&& p.congestion_window == 10 * m.path.max_datagram_size
            &&& p.ssthresh == usize::MAX
            &&& p.congestion_recovery_start_time is None
            &&& p.congestion_recovery_metadata is None
            &&& p.hystart.enabled == m.path.hystart.enabled
            &&& p.hystart.window_end is None && p.hystart.css_start_time is None
            &&& p.hystart.rtt_sample_count == 0 && p.hystart.css_round_count == 0
            &&& p.prr.snd_cnt == 0 && p.prr.prr_out == 0 && p.prr.prr_delivered == 0
                && p.prr.recoverfs == 0
            &&& p == (CongestionState {
                congestion_window: p.congestion_window,
                ssthresh: p.ssthresh,
                congestion_recovery_start_time: None,
                congestion_recovery_metadata: None,
                hystart: p.hystart,
                prr: p.prr,
                ..m.path
            })
            &&& w.spaces.len() == 3
            &&& w.spaces[i] == (SpaceView { in_flight_count: 0, ..m.spaces[i] })
            &&& w == (RecoveryView { path: p, spaces: w.spaces, ..m })
        }),
{
}

/// With Reno, a window that collapses holds two datagrams.
pub proof fn lemma_reno_collapse(m: RecoveryView<Reno>)
    requires
        m.wf(),
    ensures
        ({
            let p = m.collapsed().path;
            &&& p.congestion_window == 2 * m.path.max_datagram_size
            &&& p.bytes_acked_sl == 0
            &&& p.bytes_acked_ca == 0
            &&& p == (CongestionState {
                congestion_window: p.congestion_window,
                bytes_acked_sl: 0,
                bytes_acked_ca: 0,
                ..m.path
            })
        }),
{
}

/// The end of an application-limited phase is the last packet that was sent in
/// it, and there is none outside of one.
pub proof fn lemma_app_limited_phase(r: Rate, v: bool)
    ensures
        ({
            let t = r.with_app_limited(v);
            &&& t.spec_app_limited() <==> v
            &&& v && r.last_sent_packet > 0 ==> t.end_of_app_limited == r.last_sent_packet
            &&& v && r.last_sent_packet == 0 ==> t.end_of_app_limited == 1
            &&& !v ==> t.end_of_app_limited == 0
            &&& t == (Rate { end_of_app_limited: t.end_of_app_limited, ..r })
        }),
{
}

/// A round of slow start begins with a packet only if none is under way, and
/// keeps the smallest RTT of the round before.
pub proof fn lemma_round(h: Hystart, pkt_num: u64)
    ensures
        h.window_end is Some ==> h.in_round(pkt_num) == h,
        h.window_end is None ==> h.in_round(pkt_num).window_end == Some(pkt_num)
            && h.in_round(pkt_num).last_round_min_rtt == h.current_round_min_rtt
            && h.in_round(pkt_num).rtt_sample_count == 0,
{
}

} // verus!
