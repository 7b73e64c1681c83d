//! When the loss detection timer expires and what it does then.
use vstd::arithmetic::power2::lemma2_to64;
use vstd::arithmetic::power2::lemma_pow2_pos;
use vstd::arithmetic::power2::lemma_pow2_strictly_increases;
use vstd::arithmetic::power2::pow2;
use vstd::prelude::*;

use crate::congestion::CongestionControlOps;
use crate::model::HandshakeStatus;
use crate::model::RecoveryView;
use crate::packet::Epoch;
use crate::time::Instant;

verus! {

/// The spaces in order: initial, handshake, application.
pub proof fn lemma_space_order<C: CongestionControlOps>(m: RecoveryView<C>)
    ensures
        m.space(Epoch::Initial) == m.spaces[0],
        m.space(Epoch::Handshake) == m.spaces[1],
        m.space(Epoch::Application) == m.spaces[2],
{
}

/// The deadline of loss detection, from the loss times of the three spaces. A
/// space without a loss time hides those before it. Otherwise the earliest
/// counts, and of equal ones that of the first space.
pub proof fn lemma_loss_deadline<C: CongestionControlOps>(
    m: RecoveryView<C>,
    a: Option<Instant>,
    b: Option<Instant>,
    c: Option<Instant>,
)
    requires
        m.spaces.len() == 3,
        a == m.spaces[0].loss_time,
        b == m.spaces[1].loss_time,
        c == m.spaces[2].loss_time,
    ensures
        ({
            let (time, e) = m.loss_deadline();
            &&& c is None ==> time is None
            &&& c is Some && b is None ==> time == c && e is Application
            &&& c is Some && b is Some && a is None && c->0.nanos < b->0.nanos ==> time == c
                && e is Application
            &&& c is Some && b is Some && a is None && c->0.nanos >= b->0.nanos ==> time == b
                && e is Handshake
            &&& c is Some && b is Some && a is Some ==> {
                &&& time is Some
                &&& time->0.nanos <= a->0.nanos
                &&& time->0.nanos <= b->0.nanos
                &&& time->0.nanos <= c->0.nanos
                &&& e is Initial ==> time == a
                &&& e is Handshake ==> time == b && b->0.nanos < a->0.nanos
                &&& e is Application ==> time == c && c->0.nanos < a->0.nanos && c->0.nanos
                    < b->0.nanos
            }
        }),
{
}

/// The timer is set to the deadline of loss detection if there is one. If not,
/// it is off if nothing is in flight and the peer has verified the address, and
/// set to the deadline of the probes otherwise.
pub proof fn lemma_timer<C: CongestionControlOps>(
    m: RecoveryView<C>,
    hs: HandshakeStatus,
    now: Instant,
)
    ensures
        ({
            let t = m.timer(hs, now);
            let loss = m.loss_deadline().0;
            &&& loss is Some ==> t == loss
            &&& loss is None && m.path.bytes_in_flight == 0 && hs.peer_verified_address ==> t
                is None
            &&& loss is None && (m.path.bytes_in_flight > 0 || !hs.peer_verified_address) ==> t
                == m.probe_deadline(hs, now).0
            &&& m.with_timer(hs, now) == (RecoveryView { loss_detection_timer: t, ..m })
        }),
{
}

/// Before the first expiry the timer does not back off, and however often it
/// has expired, its waits stay within what can be added to a clock reading.
pub proof fn lemma_probe_wait_bound<C: CongestionControlOps>(m: RecoveryView<C>, factor: int)
    requires
        m.wf(),
        factor == pow2(m.pto_count as nat),
    ensures
        1 <= factor <= 0x8000_0000,
        m.pto_count == 0 ==> factor == 1,
        0 <= m.path.pto_nanos() * factor <= 0x800_0000_0000_0000_0000_0000_0000_0000,
        0 <= m.max_ack_delay.nanos * factor <= 0x800_0000_0000_0000_0000_0000_0000_0000,
{
    lemma2_to64();
    lemma_pow2_pos(m.pto_count as nat);
    if m.pto_count < 31 {
        lemma_pow2_strictly_increases(m.pto_count as nat, 31);
    }
    let p = m.path.pto_nanos();
    let d = m.max_ack_delay.nanos as int;
    assert(0 <= p <= 0x1000_0000_0000_0000_0000_0000);
    assert(0 <= p * factor <= 0x1000_0000_0000_0000_0000_0000 * 0x8000_0000) by (nonlinear_arith)
        requires
            0 <= p <= 0x1000_0000_0000_0000_0000_0000,
            1 <= factor <= 0x8000_0000,
    ;
    assert(0 <= d * factor <= 0x1000_0000_0000_0000_0000_0000 * 0x8000_0000) by (nonlinear_arith)
        requires
            0 <= d <= 0x1000_0000_0000_0000_0000_0000,
            1 <= factor <= 0x8000_0000,
    ;
}

/// With nothing in flight, the probe timer runs from the current time, for a
/// handshake packet if there are keys for one and for an initial packet if not.
pub proof fn lemma_idle_probe<C: CongestionControlOps>(
    m: RecoveryView<C>,
    hs: HandshakeStatus,
    now: Instant,
    factor: int,
)
    requires
        m.wf(),
        now.in_range(),
        factor == pow2(m.pto_count as nat),
        m.path.bytes_in_flight == 0,
    ensures
        ({
            let (time, e) = m.probe_deadline(hs, now);
            &&& time is Some
            &&& time->0.nanos == now.nanos + m.path.pto_nanos() * factor
            &&& hs.has_handshake_keys ==> e is Handshake
            &&& !hs.has_handshake_keys ==> e is Initial
        }),
{
    lemma_probe_wait_bound(m, factor);
}

/// With something in flight, the probe timer runs from the last packet of a
/// space that elicits an acknowledgement, in the space in which it expires
/// first. A space counts if it has packets in flight, that of the application
/// only once the handshake is complete. In the latter the peer may delay
/// acknowledgements, so the timer waits for that as well.
pub proof fn lemma_probe_deadline<C: CongestionControlOps>(
    m: RecoveryView<C>,
    hs: HandshakeStatus,
    now: Instant,
    factor: int,
    wait: Seq<int>,
    counts: Seq<bool>,
)
    requires
        m.wf(),
        now.in_range(),
        factor == pow2(m.pto_count as nat),
        m.path.bytes_in_flight > 0,
        wait.len() == 3,
        wait[0] == m.path.pto_nanos() * factor,
        wait[1] == m.path.pto_nanos() * factor,
        wait[2] == m.path.pto_nanos() * factor + m.max_ack_delay.nanos * factor,
        counts.len() == 3,
        counts[0] == (m.spaces[0].in_flight_count > 0),
        counts[1] == (m.spaces[1].in_flight_count > 0),
        counts[2] == (m.spaces[2].in_flight_count > 0 && hs.completed),
        forall|i: int|
            0 <= i < 3 && #[trigger] counts[i]
                ==> m.spaces[i].time_of_last_sent_ack_eliciting_pkt is Some,
    ensures
        ({
            let (time, e) = m.probe_deadline(hs, now);
            let k = e.rank();
            &&& (counts[0] || counts[1] || counts[2]) == (time is Some)
            &&& time is Some ==> counts[k] && time->0.nanos
                == m.spaces[k].time_of_last_sent_ack_eliciting_pkt->0.nanos + wait[k]
            &&& time is Some ==> forall|i: int|
                0 <= i < 3 && #[trigger] counts[i] ==> time->0.nanos
                    <= m.spaces[i].time_of_last_sent_ack_eliciting_pkt->0.nanos + wait[i]
            &&& time is Some ==> forall|i: int|
                0 <= i < k && #[trigger] counts[i] ==> time->0.nanos
                    < m.spaces[i].time_of_last_sent_ack_eliciting_pkt->0.nanos + wait[i]
        }),
{
    lemma_probe_wait_bound(m, factor);
    assert(counts[0] ==> m.spaces[0].time_of_last_sent_ack_eliciting_pkt->0.in_range());
    assert(counts[1] ==> m.spaces[1].time_of_last_sent_ack_eliciting_pkt->0.in_range());
    assert(counts[2] ==> m.spaces[2].time_of_last_sent_ack_eliciting_pkt->0.in_range());
    let (time, e) = m.probe_deadline(hs, now);
    assert forall|i: int| time is Some && 0 <= i < 3 && #[trigger] counts[i] implies time->0.nanos
        <= m.spaces[i].time_of_last_sent_ack_eliciting_pkt->0.nanos + wait[i] by {
        assert(i == 0 || i == 1 || i == 2);
    }
    assert forall|i: int| time is Some && 0 <= i < e.rank() && #[trigger] counts[i] implies
        time->0.nanos < m.spaces[i].time_of_last_sent_ack_eliciting_pkt->0.nanos + wait[i] by {
        assert(i == 0 || i == 1);
    }
}

/// The spaces that count are gone through in order. One that has sent nothing
/// that elicits an acknowledgement hides those before it: there is no deadline
/// if it is the last, and otherwise that of the spaces after it.
pub proof fn lemma_probe_hidden<C: CongestionControlOps>(
    m: RecoveryView<C>,
    hs: HandshakeStatus,
    now: Instant,
    counts: Seq<bool>,
    silent: Seq<bool>,
)
    requires
        m.wf(),
        m.path.bytes_in_flight > 0,
        counts.len() == 3,
        counts[0] == (m.spaces[0].in_flight_count > 0),
        counts[1] == (m.spaces[1].in_flight_count > 0),
        counts[2] == (m.spaces[2].in_flight_count > 0 && hs.completed),
        silent.len() == 3,
        forall|i: int|
            0 <= i < 3 ==> (#[trigger] silent[i] <==> counts[i]
                && m.spaces[i].time_of_last_sent_ack_eliciting_pkt is None),
    ensures
        ({
            let (time, e) = m.probe_deadline(hs, now);
            &&& silent[2] ==> time is None
            &&& !counts[2] && silent[1] ==> time is None
            &&& !counts[2] && !counts[1] && silent[0] ==> time is None
            &&& counts[2] && !silent[2] && silent[1] ==> time is Some && e is Application
            &&& counts[2] && !silent[2] && !counts[1] && silent[0] ==> time is Some
                && e is Application
            &&& counts[1] && !silent[1] && !counts[2] && silent[0] ==> time is Some
                && e is Handshake
            &&& counts[1] && !silent[1] && counts[2] && !silent[2] && silent[0] ==> time is Some
                && !(e is Initial)
        }),
{
    assert(silent[0] <==> counts[0] && m.spaces[0].time_of_last_sent_ack_eliciting_pkt is None);
    assert(silent[1] <==> counts[1] && m.spaces[1].time_of_last_sent_ack_eliciting_pkt is None);
    assert(silent[2] <==> counts[2] && m.spaces[2].time_of_last_sent_ack_eliciting_pkt is None);
}

/// When the timer expires and a packet is due to be lost, loss detection runs
/// in its space and the timer is set again. Nothing is probed.
pub proof fn lemma_timeout_detects<C: CongestionControlOps>(
    m: RecoveryView<C>,
    hs: HandshakeStatus,
    now: Instant,
    e: Epoch,
)
    requires
        m.wf(),
        m.loss_deadline().0 is Some,
        e == m.loss_deadline().1,
    ensures
        ({
            let w = m.after_timeout(hs, now);
            let l = m.after_loss(e, now);
            &&& w == (RecoveryView { loss_detection_timer: w.timer(hs, now), ..l })
            &&& w.pto_count == m.pto_count
            &&& m.timeout_losses(now) == (
                m.loss_outcome(e, now).lost_packets,
                m.loss_outcome(e, now).lost_bytes,
            )
        }),
{
}

/// When the timer expires and no packet is due to be lost, one probe is due
/// after the first expiry and two after every later one, in the space whose
/// timer expired. The frames of the oldest packets there are sent again.
pub proof fn lemma_timeout_probes<C: CongestionControlOps>(
    m: RecoveryView<C>,
    hs: HandshakeStatus,
    now: Instant,
    e: Epoch,
    other: Epoch,
)
    requires
        m.wf(),
        m.loss_deadline().0 is None,
        m.pto_count < 31,
        m.path.bytes_in_flight > 0 ==> e == m.probe_deadline(hs, now).1,
        m.path.bytes_in_flight == 0 && hs.has_handshake_keys ==> e is Handshake,
        m.path.bytes_in_flight == 0 && !hs.has_handshake_keys ==> e is Initial,
        other != e,
    ensures
        ({
            let w = m.after_timeout(hs, now);
            &&& w.pto_count == m.pto_count + 1
            &&& m.pto_count == 0 ==> w.space(e).loss_probes == 1
            &&& m.pto_count > 0 ==> w.space(e).loss_probes == 2
            &&& m.pto_count == 0 ==> w.space(e).lost == m.space(e).lost + m.space(e).probe_frames(
                1,
            )
            &&& m.pto_count > 0 ==> w.space(e).lost == m.space(e).lost + m.space(e).probe_frames(
                2,
            )
            &&& w.space(e).sent == m.space(e).sent
            &&& w.space(e).acked == m.space(e).acked
            &&& w.space(e).in_flight_count == m.space(e).in_flight_count
            &&& w.space(other) == m.space(other)
            &&& w.path == m.path
            &&& w.lost_count == m.lost_count
            &&& w.bytes_lost == m.bytes_lost
            &&& w.loss_detection_timer == w.timer(hs, now)
            &&& m.timeout_losses(now) == (0usize, 0usize)
        }),
{
}

} // verus!
