//! What the RTT estimate, the probe timeout and the time threshold have to
//! satisfy, in terms of the samples and of the fields of the state.
use vstd::prelude::*;

use crate::congestion::CongestionControlOps;
use crate::congestion::CongestionState;
use crate::minmax::Minmax;
use crate::minmax::Sample;
use crate::model::RecoveryView;
use crate::time::deadline_lt;
use crate::time::eighths_of;
use crate::time::Duration;
use crate::time::Instant;

verus! {

/// `k` eighths of `n` are off by no more than half a unit.
pub proof fn lemma_eighths(n: int, k: int)
    ensures
        8 * eighths_of(n, k) <= n * k + 4 < 8 * eighths_of(n, k) + 8,
{
    let x = n * k + 4;
    assert(8 * (x / 8) <= x < 8 * (x / 8) + 8);
}

/// The time from one instant to another is their difference, and nothing if
/// the other comes first.
pub proof fn lemma_since(a: Instant, b: Instant)
    requires
        a.in_range(),
        b.in_range(),
    ensures
        a.nanos >= b.nanos ==> a.since(b).nanos == a.nanos - b.nanos,
        a.nanos < b.nanos ==> a.since(b).nanos == 0,
{
}

/// The first RTT sample is the smoothed and the smallest RTT, and its half the
/// variation. It changes nothing else.
pub proof fn lemma_first_rtt_sample(
    s: CongestionState,
    latest_rtt: Duration,
    ack_delay: Duration,
    max_ack_delay: Duration,
    now: Instant,
)
    requires
        s.wf(),
        s.smoothed_rtt is None,
    ensures
        ({
            let t = s.with_rtt(latest_rtt, ack_delay, max_ack_delay, now);
            &&& t.latest_rtt.nanos == latest_rtt.nanos
            &&& t.smoothed_rtt is Some
            &&& t.smoothed_rtt->0.nanos == latest_rtt.nanos
            &&& t.min_rtt.nanos == latest_rtt.nanos
            &&& 2 * t.rttvar.nanos <= latest_rtt.nanos <= 2 * t.rttvar.nanos + 1
            &&& t == (CongestionState {
                latest_rtt: t.latest_rtt,
                smoothed_rtt: t.smoothed_rtt,
                min_rtt: t.min_rtt,
                rttvar: t.rttvar,
                minmax_filter: t.minmax_filter,
                ..s
            })
        }),
{
}

/// After the first sample, the smoothed RTT moves one eighth of the way towards
/// the adjusted sample, in either direction, and the variation one quarter of
/// the way towards the distance of the sample from the smoothed RTT. The
/// adjusted sample is the sample less the reported delay, limited to the
/// longest delay, unless that would be less than the smallest RTT.
pub proof fn lemma_later_rtt_sample(
    s: CongestionState,
    latest_rtt: Duration,
    ack_delay: Duration,
    max_ack_delay: Duration,
    now: Instant,
    srtt: Duration,
    adjusted: int,
    distance: int,
)
    requires
        s.wf(),
        latest_rtt.in_range(),
        s.smoothed_rtt == Some(srtt),
        ({
            let delay = if max_ack_delay.nanos < ack_delay.nanos {
                max_ack_delay.nanos
            } else {
                ack_delay.nanos
            };
            let smallest = s.with_rtt(latest_rtt, ack_delay, max_ack_delay, now).min_rtt;
            adjusted == if latest_rtt.nanos > smallest.nanos + delay {
                latest_rtt.nanos - delay
            } else {
                latest_rtt.nanos as int
            }
        }),
        distance == srtt.nanos - adjusted || distance == adjusted - srtt.nanos,
        distance >= 0,
    ensures
        ({
            let t = s.with_rtt(latest_rtt, ack_delay, max_ack_delay, now);
            &&& t.latest_rtt.nanos == latest_rtt.nanos
            &&& t.smoothed_rtt is Some
            &&& -8 <= 8 * t.smoothed_rtt->0.nanos - (7 * srtt.nanos + adjusted) <= 8
            &&& -8 <= 8 * t.rttvar.nanos - (6 * s.rttvar.nanos + 2 * distance) <= 8
            &&& t == (CongestionState {
                latest_rtt: t.latest_rtt,
                smoothed_rtt: t.smoothed_rtt,
                min_rtt: t.min_rtt,
                rttvar: t.rttvar,
                minmax_filter: t.minmax_filter,
                ..s
            })
        }),
{
    lemma_eighths(srtt.nanos as int, 7);
    lemma_eighths(adjusted, 1);
    lemma_eighths(s.rttvar.nanos as int, 6);
    lemma_eighths(distance, 2);
}

/// A sample that is more than a few nanoseconds below the smoothed RTT lowers
/// it, and one that is as much above raises it, if there is no delay.
pub proof fn lemma_rtt_follows_samples(
    s: CongestionState,
    latest_rtt: Duration,
    max_ack_delay: Duration,
    now: Instant,
    srtt: Duration,
)
    requires
        s.wf(),
        latest_rtt.in_range(),
        s.smoothed_rtt == Some(srtt),
    ensures
        ({
            let t = s.with_rtt(latest_rtt, Duration { nanos: 0 }, max_ack_delay, now);
            &&& t.smoothed_rtt is Some
            &&& latest_rtt.nanos + 8 < srtt.nanos ==> t.smoothed_rtt->0.nanos < srtt.nanos
            &&& srtt.nanos + 8 < latest_rtt.nanos ==> srtt.nanos < t.smoothed_rtt->0.nanos
        }),
{
    let adjusted = latest_rtt.nanos as int;
    let distance = if srtt.nanos >= adjusted {
        srtt.nanos - adjusted
    } else {
        adjusted - srtt.nanos
    };
    lemma_later_rtt_sample(
        s,
        latest_rtt,
        Duration { nanos: 0 },
        max_ack_delay,
        now,
        srtt,
        adjusted,
        distance,
    );
}

/// The smallest RTT is never larger than the sample. A sample that is no larger
/// than the smallest RTT takes its place. Otherwise the smallest RTT stays as
/// long as it is not older than five minutes.
pub proof fn lemma_smallest_rtt(
    s: CongestionState,
    latest_rtt: Duration,
    ack_delay: Duration,
    max_ack_delay: Duration,
    now: Instant,
)
    requires
        s.wf(),
        now.in_range(),
        s.smoothed_rtt is Some,
        s.min_rtt == s.minmax_filter.best.value,
    ensures
        ({
            let t = s.with_rtt(latest_rtt, ack_delay, max_ack_delay, now);
            let best = s.minmax_filter.best;
            &&& t.min_rtt == t.minmax_filter.best.value
            &&& t.min_rtt.nanos <= latest_rtt.nanos
            &&& latest_rtt.nanos <= s.min_rtt.nanos ==> t.min_rtt.nanos == latest_rtt.nanos
            &&& latest_rtt.nanos > s.min_rtt.nanos && now.nanos - best.time.nanos
                <= 300_000_000_000 && best.time.nanos <= s.minmax_filter.third.time.nanos
                ==> t.min_rtt.nanos == s.min_rtt.nanos
        }),
{
}

/// Of the measurements, the smallest of the window is kept: it is replaced by a
/// measurement that is no larger, and leaves when it is too old.
pub proof fn lemma_running_min(m: Minmax, win: Duration, s: Sample)
    requires
        m.wf(),
        s.wf(),
    ensures
        ({
            let r = m.with_min(win, s);
            &&& r.best.value.nanos <= s.value.nanos
            &&& s.value.nanos <= m.best.value.nanos ==> r.best == s
            &&& s.time.nanos - m.third.time.nanos > win.nanos ==> r.best == s
            &&& s.value.nanos > m.best.value.nanos && s.time.nanos - m.third.time.nanos
                <= win.nanos && s.time.nanos - m.best.time.nanos <= win.nanos ==> r.best == m.best
            &&& s.time.nanos - m.best.time.nanos > win.nanos ==> r.best != m.best || r.best == s
                || m.second == m.best || m.third == m.best
        }),
{
}

/// A measurement takes the place of the later choices that it undercuts. When
/// the best choice is too old, the next one that is not takes its place, and
/// the measurement is the last. The measurement also takes the place of a
/// second choice that is as old as the best one for a quarter of the window, and
/// of a third one that is as old as the second for half of it.
pub proof fn lemma_running_min_ages(
    m: Minmax,
    win: Duration,
    s: Sample,
    second: Sample,
    third: Sample,
)
    requires
        m.wf(),
        s.wf(),
        s.value.nanos > m.best.value.nanos,
        s.time.nanos - m.third.time.nanos <= win.nanos,
        s.value.nanos <= m.second.value.nanos ==> second == s && third == s,
        s.value.nanos > m.second.value.nanos ==> second == m.second,
        s.value.nanos > m.second.value.nanos && s.value.nanos <= m.third.value.nanos ==> third
            == s,
        s.value.nanos > m.third.value.nanos ==> third == m.third,
    ensures
        ({
            let r = m.with_min(win, s);
            let age = s.time.nanos - m.best.time.nanos;
            &&& age > win.nanos && s.time.nanos - second.time.nanos <= win.nanos ==> r == (Minmax {
                best: second,
                second: third,
                third: s,
            })
            &&& age > win.nanos && s.time.nanos - second.time.nanos > win.nanos ==> r == (Minmax {
                best: third,
                second: s,
                third: s,
            })
            &&& age <= win.nanos < 4 * age && second.time == m.best.time ==> r == (Minmax {
                best: m.best,
                second: s,
                third: s,
            })
            &&& age <= win.nanos < 2 * age && second.time != m.best.time && third.time
                == second.time ==> r == (Minmax { best: m.best, second, third: s })
            &&& age <= win.nanos && (4 * age <= win.nanos || second.time != m.best.time) && (2
                * age <= win.nanos || third.time != second.time) ==> r == (Minmax {
                best: m.best,
                second,
                third,
            })
        }),
{
}

/// The smoothed RTT is the estimate, or 333 ms before there is one.
pub proof fn lemma_rtt_value(s: CongestionState)
    ensures
        s.smoothed_rtt is Some ==> s.spec_rtt() == s.smoothed_rtt->0,
        s.smoothed_rtt is None ==> s.spec_rtt().nanos == 333_000_000,
{
}

/// The probe timeout exceeds the smoothed RTT by four times the variation, but
/// by one millisecond at least.
pub proof fn lemma_probe_timeout(s: CongestionState, rtt: int)
    requires
        s.smoothed_rtt is Some ==> rtt == s.smoothed_rtt->0.nanos,
        s.smoothed_rtt is None ==> rtt == 333_000_000,
    ensures
        4 * s.rttvar.nanos >= 1_000_000 ==> s.pto_nanos() - rtt == 4 * s.rttvar.nanos,
        4 * s.rttvar.nanos < 1_000_000 ==> s.pto_nanos() - rtt == 1_000_000,
{
}

/// The probe timeouts of two states with the same smoothed RTT differ by four
/// times the difference of the variations.
pub proof fn lemma_probe_timeout_follows_variation(s: CongestionState, t: CongestionState)
    requires
        s.smoothed_rtt == t.smoothed_rtt,
        s.rttvar.nanos >= 250_000,
        t.rttvar.nanos >= 250_000,
    ensures
        s.pto_nanos() - t.pto_nanos() == 4 * (s.rttvar.nanos - t.rttvar.nanos),
{
}

/// A packet was sent in a recovery period if one has begun no earlier than the
/// packet was sent.
pub proof fn lemma_recovery_period(s: CongestionState, sent_time: Instant)
    ensures
        s.congestion_recovery_start_time is None ==> !s.recovering(sent_time),
        s.congestion_recovery_start_time is Some ==> (s.recovering(sent_time) <==>
            sent_time.nanos <= s.congestion_recovery_start_time->0.nanos),
{
}

/// The time threshold is the share that `time_thresh` gives, in eighths, of the
/// larger of the latest and the smoothed RTT. Losses have to be older than a
/// millisecond besides.
pub proof fn lemma_time_threshold<C: CongestionControlOps>(m: RecoveryView<C>, rtt: int, x: int)
    requires
        m.path.wf(),
        m.time_thresh <= 10,
        m.path.smoothed_rtt is Some ==> rtt == m.path.smoothed_rtt->0.nanos,
        m.path.smoothed_rtt is None ==> rtt == 333_000_000,
        x == m.path.latest_rtt.nanos || x == rtt,
        x >= m.path.latest_rtt.nanos,
        x >= rtt,
    ensures
        ({
            let d = m.reorder_delay().nanos as int;
            &&& 8 * d <= x * m.time_thresh + 4 < 8 * d + 8
            &&& m.loss_delay().nanos >= d
            &&& m.loss_delay().nanos >= 1_000_000
            &&& m.loss_delay().nanos == d || m.loss_delay().nanos == 1_000_000
        }),
{
    let k = m.time_thresh as int;
    lemma_eighths(x, k);
    assert(0 <= x * k <= x * 10) by (nonlinear_arith)
        requires
            0 <= k <= 10,
            x >= 0,
    ;
}

/// The time threshold is no less than its share of the latest and of the
/// smoothed RTT.
pub proof fn lemma_time_threshold_covers_both<C: CongestionControlOps>(m: RecoveryView<C>, rtt: int)
    requires
        m.path.wf(),
        m.time_thresh <= 10,
        m.path.smoothed_rtt is Some ==> rtt == m.path.smoothed_rtt->0.nanos,
        m.path.smoothed_rtt is None ==> rtt == 333_000_000,
    ensures
        8 * m.loss_delay().nanos + 4 > m.path.latest_rtt.nanos * m.time_thresh,
        8 * m.loss_delay().nanos + 4 > rtt * m.time_thresh,
        8 * m.reorder_delay().nanos + 4 > m.path.latest_rtt.nanos * m.time_thresh,
        8 * m.reorder_delay().nanos + 4 > rtt * m.time_thresh,
{
    let a = m.path.latest_rtt.nanos as int;
    let k = m.time_thresh as int;
    let x = if a >= rtt {
        a
    } else {
        rtt
    };
    lemma_time_threshold(m, rtt, x);
    assert(a * k <= x * k && rtt * k <= x * k) by (nonlinear_arith)
        requires
            a <= x,
            rtt <= x,
            k >= 0,
    ;
}

/// No deadline sorts before every deadline; deadlines sort by their times.
pub proof fn lemma_deadline_order(a: Option<Instant>, b: Option<Instant>)
    ensures
        b is None ==> !deadline_lt(a, b),
        a is None && b is Some ==> deadline_lt(a, b),
        a is Some && b is Some ==> (deadline_lt(a, b) <==> a->0.nanos < b->0.nanos),
{
}

} // verus!
