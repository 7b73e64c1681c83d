//! The figures of a path that are reported when they change.
use vstd::prelude::*;

use crate::time::Duration;

verus! {

/// The figures as they were last reported.
#[derive(Clone, Copy, Debug, PartialEq, Eq, Structural)]
pub struct QlogMetrics {
    pub min_rtt: Duration,
    pub smoothed_rtt: Duration,
    pub latest_rtt: Duration,
    pub rttvar: Duration,
    pub cwnd: u64,
    pub bytes_in_flight: u64,
    pub ssthresh: u64,
    pub pacing_rate: u64,
}

/// A report: the figures that have changed.
#[derive(Clone, Copy, Debug, PartialEq, Eq, Structural)]
pub struct MetricsUpdated {
    pub min_rtt: Option<Duration>,
    pub smoothed_rtt: Option<Duration>,
    pub latest_rtt: Option<Duration>,
    pub rtt_variance: Option<Duration>,
    pub congestion_window: Option<u64>,
    pub bytes_in_flight: Option<u64>,
    pub ssthresh: Option<u64>,
    pub pacing_rate: Option<u64>,
}

/// The latest value, if it differs from the one before.
pub open spec fn changed<T>(before: T, latest: T) -> Option<T> {
    if before != latest {
        Some(latest)
    } else {
        None
    }
}

fn changed_duration(before: Duration, latest: Duration) -> (r: Option<Duration>)
    ensures
        r == changed(before, latest),
{
    if before.nanos != latest.nanos {
        Some(latest)
    } else {
        None
    }
}

fn changed_number(before: u64, latest: u64) -> (r: Option<u64>)
    ensures
        r == changed(before, latest),
{
    if before != latest {
        Some(latest)
    } else {
        None
    }
}

impl QlogMetrics {
    pub open spec fn zero() -> QlogMetrics {
        let none = Duration { nanos: 0 };
        QlogMetrics {
            min_rtt: none,
            smoothed_rtt: none,
            latest_rtt: none,
            rttvar: none,
            cwnd: 0,
            bytes_in_flight: 0,
            ssthresh: 0,
            pacing_rate: 0,
        }
    }

    /// The figures that differ between two states.
    pub open spec fn report(self, latest: QlogMetrics) -> MetricsUpdated {
        MetricsUpdated {
            min_rtt: changed(self.min_rtt, latest.min_rtt),
            smoothed_rtt: changed(self.smoothed_rtt, latest.smoothed_rtt),
            latest_rtt: changed(self.latest_rtt, latest.latest_rtt),
            rtt_variance: changed(self.rttvar, latest.rttvar),
            congestion_window: changed(self.cwnd, latest.cwnd),
            bytes_in_flight: changed(self.bytes_in_flight, latest.bytes_in_flight),
            ssthresh: changed(self.ssthresh, latest.ssthresh),
            pacing_rate: changed(self.pacing_rate, latest.pacing_rate),
        }
    }

    pub fn new() -> (m: QlogMetrics)
        ensures
            m == Self::zero(),
    {
        let none = Duration { nanos: 0 };
        QlogMetrics {
            min_rtt: none,
            smoothed_rtt: none,
            latest_rtt: none,
            rttvar: none,
            cwnd: 0,
            bytes_in_flight: 0,
            ssthresh: 0,
            pacing_rate: 0,
        }
    }

    /// Makes a report if the latest figures are different.
    ///
    /// A report is made only if at least one figure has changed. It holds the
    /// latest value of those that have.
    pub fn maybe_update(&mut self, latest: QlogMetrics) -> (r: Option<MetricsUpdated>)
        ensures
            *final(self) == latest,
            r == if *old(self) == latest {
                None
            } else {
                Some(old(self).report(latest))
            },
    {
        let update = MetricsUpdated {
            min_rtt: changed_duration(self.min_rtt, latest.min_rtt),
            smoothed_rtt: changed_duration(self.smoothed_rtt, latest.smoothed_rtt),
            latest_rtt: changed_duration(self.latest_rtt, latest.latest_rtt),
            rtt_variance: changed_duration(self.rttvar, latest.rttvar),
            congestion_window: changed_number(self.cwnd, latest.cwnd),
            bytes_in_flight: changed_number(self.bytes_in_flight, latest.bytes_in_flight),
            ssthresh: changed_number(self.ssthresh, latest.ssthresh),
            pacing_rate: changed_number(self.pacing_rate, latest.pacing_rate),
        };
        let emit_event = update.min_rtt.is_some() || update.smoothed_rtt.is_some()
            || update.latest_rtt.is_some() || update.rtt_variance.is_some()
            || update.congestion_window.is_some() || update.bytes_in_flight.is_some()
            || update.ssthresh.is_some() || update.pacing_rate.is_some();
        *self = latest;
        if emit_event {
            Some(update)
        } else {
            None
        }
    }
}

} // verus!
