//! Reno congestion control.
use vstd::prelude::*;

use crate::congestion::CongestionControlOps;
use crate::congestion::CongestionState;
use crate::congestion::QuackMetadata;
use crate::congestion::INITIAL_WINDOW_PACKETS;
use crate::congestion::MINIMUM_WINDOW_PACKETS;
use crate::packet::Epoch;
use crate::sent::Acked;
use crate::time::Instant;

verus! {

/// The Reno algorithm. All that it remembers is in the state of the path.
#[derive(Clone, Copy, Debug, PartialEq, Eq, Structural)]
pub struct Reno;

/// `a + b`, but no more than a `usize` holds.
pub open spec fn capped(a: usize, b: usize) -> usize {
    if a + b > usize::MAX {
        usize::MAX
    } else {
        (a + b) as usize
    }
}

/// The smallest window that Reno keeps.
pub open spec fn minimum_window(s: CongestionState) -> usize {
    (s.max_datagram_size * MINIMUM_WINDOW_PACKETS) as usize
}

/// The state once one packet has been acknowledged. The window grows by one
/// datagram per acknowledged datagram in slow start, and by one datagram per
/// acknowledged window after it. It does not grow for packets from before the
/// recovery period, nor while the application is the limit.
pub open spec fn one_acked(s: CongestionState, pkt: Acked) -> CongestionState {
    let s = CongestionState {
        bytes_in_flight: if s.bytes_in_flight >= pkt.size {
            (s.bytes_in_flight - pkt.size) as usize
        } else {
            0
        },
        ..s
    };
    if s.recovering(pkt.time_sent) || s.app_limited {
        s
    } else if s.congestion_window < s.ssthresh {
        let acked = capped(s.bytes_acked_sl, pkt.size);
        if acked >= s.max_datagram_size {
            CongestionState {
                bytes_acked_sl: (acked - s.max_datagram_size) as usize,
                congestion_window: capped(s.congestion_window, s.max_datagram_size),
                ..s
            }
        } else {
            CongestionState { bytes_acked_sl: acked, ..s }
        }
    } else {
        let acked = capped(s.bytes_acked_ca, pkt.size);
        if acked >= s.congestion_window {
            CongestionState {
                bytes_acked_ca: (acked - s.congestion_window) as usize,
                congestion_window: capped(s.congestion_window, s.max_datagram_size),
                ..s
            }
        } else {
            CongestionState { bytes_acked_ca: acked, ..s }
        }
    }
}

/// The state once the packets have been acknowledged, in order.
pub open spec fn all_acked(s: CongestionState, packets: Seq<Acked>) -> CongestionState
    decreases packets.len(),
{
    if packets.len() == 0 {
        s
    } else {
        one_acked(all_acked(s, packets.drop_last()), packets.last())
    }
}

/// The state once a loss has been seen. The first loss of a recovery period
/// halves the window.
pub open spec fn reduced(
    s: CongestionState,
    time_sent: Instant,
    now: Instant,
    metadata: Option<QuackMetadata>,
) -> CongestionState {
    if s.recovering(time_sent) {
        s
    } else {
        let window = if s.congestion_window / 2 >= minimum_window(s) {
            s.congestion_window / 2
        } else {
            minimum_window(s)
        };
        CongestionState {
            congestion_recovery_start_time: Some(now),
            congestion_recovery_metadata: metadata,
            congestion_window: window,
            bytes_acked_ca: window / 2,
            ssthresh: window,
            ..s
        }
    }
}

/// A recovery period reduces the window once: further losses of packets that
/// were sent before it began change nothing.
pub proof fn lemma_one_reduction_per_period(
    s: CongestionState,
    time_sent: Instant,
    now: Instant,
    metadata: Option<QuackMetadata>,
    other_sent: Instant,
    later: Instant,
    other: Option<QuackMetadata>,
)
    requires
        !s.recovering(time_sent),
        other_sent.nanos <= now.nanos,
    ensures
        ({
            let r = reduced(s, time_sent, now, metadata);
            reduced(r, other_sent, later, other) == r
        }),
{
}

/// A loss never takes the window below its minimum, and otherwise halves it.
pub proof fn lemma_window_floor(
    s: CongestionState,
    time_sent: Instant,
    now: Instant,
    metadata: Option<QuackMetadata>,
)
    requires
        s.wf(),
        !s.recovering(time_sent),
    ensures
        ({
            let r = reduced(s, time_sent, now, metadata);
            &&& r.congestion_window >= s.max_datagram_size * MINIMUM_WINDOW_PACKETS
            &&& r.congestion_window >= s.congestion_window / 2
            &&& r.congestion_window == s.congestion_window / 2 || r.congestion_window
                == s.max_datagram_size * MINIMUM_WINDOW_PACKETS
            &&& r.ssthresh == r.congestion_window
        }),
{
}

fn on_packet_acked(r: &mut CongestionState, pkt: &Acked)
    requires
        old(r).wf(),
    ensures
        *final(r) == one_acked(*old(r), *pkt),
        final(r).wf(),
{
    r.bytes_in_flight = r.bytes_in_flight.saturating_sub(pkt.size);
    if r.in_congestion_recovery(pkt.time_sent) || r.app_limited {
        return;
    }
    if r.congestion_window < r.ssthresh {
        r.bytes_acked_sl = r.bytes_acked_sl.saturating_add(pkt.size);
        if r.bytes_acked_sl >= r.max_datagram_size {
            r.congestion_window = r.congestion_window.saturating_add(r.max_datagram_size);
            r.bytes_acked_sl = r.bytes_acked_sl - r.max_datagram_size;
        }
    } else {
        r.bytes_acked_ca = r.bytes_acked_ca.saturating_add(pkt.size);
        if r.bytes_acked_ca >= r.congestion_window {
            r.bytes_acked_ca = r.bytes_acked_ca - r.congestion_window;
            r.congestion_window = r.congestion_window.saturating_add(r.max_datagram_size);
        }
    }
}

impl CongestionControlOps for Reno {
    open spec fn initial() -> Self {
        Reno
    }

    fn start() -> (ops: Self) {
        Reno
    }

    open spec fn after_init(self, s: CongestionState) -> (Self, CongestionState) {
        (self, s)
    }

    fn on_init(&mut self, r: &mut CongestionState) {
    }

    open spec fn after_reset(self, s: CongestionState) -> (Self, CongestionState) {
        (self, s)
    }

    fn reset(&mut self, r: &mut CongestionState) {
    }

    open spec fn after_sent(self, s: CongestionState, sent_bytes: usize, now: Instant) -> (
        Self,
        CongestionState,
    ) {
        (
            self,
            CongestionState { bytes_in_flight: (s.bytes_in_flight + sent_bytes) as usize, ..s },
        )
    }

    fn on_packet_sent(&mut self, r: &mut CongestionState, sent_bytes: usize, now: Instant) {
        r.bytes_in_flight = r.bytes_in_flight + sent_bytes;
    }

    open spec fn after_acked(
        self,
        s: CongestionState,
        packets: Seq<Acked>,
        epoch: Epoch,
        now: Instant,
    ) -> (Self, CongestionState, Seq<Acked>) {
        (self, all_acked(s, packets), Seq::empty())
    }

    fn on_packets_acked(
        &mut self,
        r: &mut CongestionState,
        packets: &mut Vec<Acked>,
        epoch: Epoch,
        now: Instant,
    ) {
        let len = packets.len();
        let mut i: usize = 0;
        assert(packets@.take(0) =~= Seq::<Acked>::empty());
        while i < len
            invariant
                i <= len,
                len == packets@.len(),
                packets@ == old(packets)@,
                r.wf(),
                *r == all_acked(*old(r), packets@.take(i as int)),
            decreases len - i,
        {
            on_packet_acked(r, &packets[i]);
            i = i + 1;
            assert(packets@.take(i as int).drop_last() =~= packets@.take(i - 1));
        }
        assert(packets@.take(len as int) =~= packets@);
        packets.clear();
    }

    open spec fn after_congestion(
        self,
        s: CongestionState,
        lost_bytes: usize,
        time_sent: Instant,
        epoch: Epoch,
        now: Instant,
        metadata: Option<QuackMetadata>,
    ) -> (Self, CongestionState) {
        (self, reduced(s, time_sent, now, metadata))
    }

    fn congestion_event(
        &mut self,
        r: &mut CongestionState,
        lost_bytes: usize,
        time_sent: Instant,
        epoch: Epoch,
        now: Instant,
        metadata: Option<QuackMetadata>,
    ) {
        if !r.in_congestion_recovery(time_sent) {
            assert(r.max_datagram_size * INITIAL_WINDOW_PACKETS <= usize::MAX);
            r.congestion_recovery_start_time = Some(now);
            r.congestion_recovery_metadata = metadata;
            let half = r.congestion_window / 2;
            let minimum = r.max_datagram_size * MINIMUM_WINDOW_PACKETS;
            r.congestion_window = if half >= minimum {
                half
            } else {
                minimum
            };
            r.bytes_acked_ca = r.congestion_window / 2;
            r.ssthresh = r.congestion_window;
        }
    }

    open spec fn after_collapse(self, s: CongestionState) -> (Self, CongestionState) {
        (
            self,
            CongestionState {
                congestion_window: minimum_window(s),
                bytes_acked_sl: 0,
                bytes_acked_ca: 0,
                ..s
            },
        )
    }

    fn collapse_cwnd(&mut self, r: &mut CongestionState) {
        assert(r.max_datagram_size * INITIAL_WINDOW_PACKETS <= usize::MAX);
        r.congestion_window = r.max_datagram_size * MINIMUM_WINDOW_PACKETS;
        r.bytes_acked_sl = 0;
        r.bytes_acked_ca = 0;
    }

    open spec fn after_checkpoint(self, s: CongestionState) -> (Self, CongestionState) {
        (self, s)
    }

    fn checkpoint(&mut self, r: &mut CongestionState) {
    }

    open spec fn after_rollback(self, s: CongestionState) -> (Self, CongestionState, bool) {
        (self, s, true)
    }

    fn rollback(&mut self, r: &mut CongestionState) -> (restored: bool) {
        true
    }

    open spec fn custom_pacing(self) -> bool {
        false
    }

    fn has_custom_pacing(&self) -> (r: bool) {
        false
    }
}

} // verus!
