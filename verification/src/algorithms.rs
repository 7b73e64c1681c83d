//! The congestion control algorithms that a connection can choose from.
use vstd::prelude::*;
use vstd::std_specs::convert::FromSpecImpl;

use crate::congestion::CongestionControlAlgorithm;
use crate::congestion::CongestionControlOps;
use crate::congestion::CongestionState;
use crate::congestion::QuackMetadata;
use crate::packet::Epoch;
use crate::reno::Reno;
use crate::sent::Acked;
use crate::time::Instant;

verus! {

/// The hooks of the chosen algorithm. Reno is part of this library; `U` has
/// the hooks of CUBIC and `B` those of BBR.
#[derive(Debug)]
pub enum CongestionControl<U, B> {
    Reno(Reno),
    Cubic(U),
    Bbr(B),
}

impl<U: Copy, B: Copy> Clone for CongestionControl<U, B> {
    fn clone(&self) -> (ops: Self)
        ensures
            ops == *self,
    {
        *self
    }
}

impl<U: Copy, B: Copy> Copy for CongestionControl<U, B> {

}

impl<U: CongestionControlOps, B: CongestionControlOps> CongestionControl<U, B> {
    /// The hooks of the named algorithm.
    pub open spec fn of(algo: CongestionControlAlgorithm) -> Self {
        match algo {
            CongestionControlAlgorithm::Reno => CongestionControl::Reno(Reno::initial()),
            CongestionControlAlgorithm::CUBIC => CongestionControl::Cubic(U::initial()),
            CongestionControlAlgorithm::BBR => CongestionControl::Bbr(B::initial()),
        }
    }
}

impl<U: CongestionControlOps, B: CongestionControlOps> From<CongestionControlAlgorithm> for
    CongestionControl<U, B> {
    fn from(algo: CongestionControlAlgorithm) -> (ops: Self) {
        match algo {
            CongestionControlAlgorithm::Reno => CongestionControl::Reno(Reno::start()),
            CongestionControlAlgorithm::CUBIC => CongestionControl::Cubic(U::start()),
            CongestionControlAlgorithm::BBR => CongestionControl::Bbr(B::start()),
        }
    }
}

impl<U: CongestionControlOps, B: CongestionControlOps> FromSpecImpl<CongestionControlAlgorithm> for
    CongestionControl<U, B> {
    open spec fn obeys_from_spec() -> bool {
        true
    }

    open spec fn from_spec(algo: CongestionControlAlgorithm) -> Self {
        Self::of(algo)
    }
}

impl<U: CongestionControlOps, B: CongestionControlOps> CongestionControlOps for CongestionControl<
    U,
    B,
> {
    open spec fn initial() -> Self {
        Self::of(CongestionControlAlgorithm::CUBIC)
    }

    /// The hooks of CUBIC, the default.
    fn start() -> (ops: Self) {
        CongestionControl::Cubic(U::start())
    }

    open spec fn after_init(
        self,
        s: CongestionState,
    ) -> (Self, CongestionState) {
        match self {
            CongestionControl::Reno(ops) => {
                let (ops, path) = ops.after_init(s);
                (CongestionControl::Reno(ops), path)
            },
            CongestionControl::Cubic(ops) => {
                let (ops, path) = ops.after_init(s);
                (CongestionControl::Cubic(ops), path)
            },
            CongestionControl::Bbr(ops) => {
                let (ops, path) = ops.after_init(s);
                (CongestionControl::Bbr(ops), path)
            },
        }
    }

    fn on_init(
        &mut self,
        r: &mut CongestionState,
    ) {
        match self {
            CongestionControl::Reno(ops) => ops.on_init(r),
            CongestionControl::Cubic(ops) => ops.on_init(r),
            CongestionControl::Bbr(ops) => ops.on_init(r),
        }
    }

    open spec fn after_reset(
        self,
        s: CongestionState,
    ) -> (Self, CongestionState) {
        match self {
            CongestionControl::Reno(ops) => {
                let (ops, path) = ops.after_reset(s);
                (CongestionControl::Reno(ops), path)
            },
            CongestionControl::Cubic(ops) => {
                let (ops, path) = ops.after_reset(s);
                (CongestionControl::Cubic(ops), path)
            },
            CongestionControl::Bbr(ops) => {
                let (ops, path) = ops.after_reset(s);
                (CongestionControl::Bbr(ops), path)
            },
        }
    }

    fn reset(
        &mut self,
        r: &mut CongestionState,
    ) {
        match self {
            CongestionControl::Reno(ops) => ops.reset(r),
            CongestionControl::Cubic(ops) => ops.reset(r),
            CongestionControl::Bbr(ops) => ops.reset(r),
        }
    }

    open spec fn after_sent(
        self,
        s: CongestionState,
        sent_bytes: usize,
        now: Instant,
    ) -> (Self, CongestionState) {
        match self {
            CongestionControl::Reno(ops) => {
                let (ops, path) = ops.after_sent(s, sent_bytes, now);
                (CongestionControl::Reno(ops), path)
            },
            CongestionControl::Cubic(ops) => {
                let (ops, path) = ops.after_sent(s, sent_bytes, now);
                (CongestionControl::Cubic(ops), path)
            },
            CongestionControl::Bbr(ops) => {
                let (ops, path) = ops.after_sent(s, sent_bytes, now);
                (CongestionControl::Bbr(ops), path)
            },
        }
    }

    fn on_packet_sent(
        &mut self,
        r: &mut CongestionState,
        sent_bytes: usize,
        now: Instant,
    ) {
        match self {
            CongestionControl::Reno(ops) => ops.on_packet_sent(r, sent_bytes, now),
            CongestionControl::Cubic(ops) => ops.on_packet_sent(r, sent_bytes, now),
            CongestionControl::Bbr(ops) => ops.on_packet_sent(r, sent_bytes, now),
        }
    }

    open spec fn after_acked(
        self,
        s: CongestionState,
        packets: Seq<Acked>,
        epoch: Epoch,
        now: Instant,
    ) -> (Self, CongestionState, Seq<Acked>) {
        match self {
            CongestionControl::Reno(ops) => {
                let (ops, path, rest) = ops.after_acked(s, packets, epoch, now);
                (CongestionControl::Reno(ops), path, rest)
            },
            CongestionControl::Cubic(ops) => {
                let (ops, path, rest) = ops.after_acked(s, packets, epoch, now);
                (CongestionControl::Cubic(ops), path, rest)
            },
            CongestionControl::Bbr(ops) => {
                let (ops, path, rest) = ops.after_acked(s, packets, epoch, now);
                (CongestionControl::Bbr(ops), path, rest)
            },
        }
    }

    fn on_packets_acked(
        &mut self,
        r: &mut CongestionState,
        packets: &mut Vec<Acked>,
        epoch: Epoch,
        now: Instant,
    ) {
        match self {
            CongestionControl::Reno(ops) => ops.on_packets_acked(r, packets, epoch, now),
            CongestionControl::Cubic(ops) => ops.on_packets_acked(r, packets, epoch, now),
            CongestionControl::Bbr(ops) => ops.on_packets_acked(r, packets, epoch, now),
        }
    }

    open spec fn after_congestion(
        self,
        s: CongestionState,
        lost_bytes: usize,
        time_sent: Instant,
        epoch: Epoch,
        now: Instant,
        metadata: Option<QuackMetadata>,
    ) -> (Self, CongestionState) {
        match self {
            CongestionControl::Reno(ops) => {
                let (ops, path) = ops.after_congestion(s, lost_bytes, time_sent, epoch, now, metadata);
                (CongestionControl::Reno(ops), path)
            },
            CongestionControl::Cubic(ops) => {
                let (ops, path) = ops.after_congestion(s, lost_bytes, time_sent, epoch, now, metadata);
                (CongestionControl::Cubic(ops), path)
            },
            CongestionControl::Bbr(ops) => {
                let (ops, path) = ops.after_congestion(s, lost_bytes, time_sent, epoch, now, metadata);
                (CongestionControl::Bbr(ops), path)
            },
        }
    }

    fn congestion_event(
        &mut self,
        r: &mut CongestionState,
        lost_bytes: usize,
        time_sent: Instant,
        epoch: Epoch,
        now: Instant,
        metadata: Option<QuackMetadata>,
    ) {
        match self {
            CongestionControl::Reno(ops) => ops.congestion_event(r, lost_bytes, time_sent, epoch, now, metadata),
            CongestionControl::Cubic(ops) => ops.congestion_event(r, lost_bytes, time_sent, epoch, now, metadata),
            CongestionControl::Bbr(ops) => ops.congestion_event(r, lost_bytes, time_sent, epoch, now, metadata),
        }
    }

    open spec fn after_collapse(
        self,
        s: CongestionState,
    ) -> (Self, CongestionState) {
        match self {
            CongestionControl::Reno(ops) => {
                let (ops, path) = ops.after_collapse(s);
                (CongestionControl::Reno(ops), path)
            },
            CongestionControl::Cubic(ops) => {
                let (ops, path) = ops.after_collapse(s);
                (CongestionControl::Cubic(ops), path)
            },
            CongestionControl::Bbr(ops) => {
                let (ops, path) = ops.after_collapse(s);
                (CongestionControl::Bbr(ops), path)
            },
        }
    }

    fn collapse_cwnd(
        &mut self,
        r: &mut CongestionState,
    ) {
        match self {
            CongestionControl::Reno(ops) => ops.collapse_cwnd(r),
            CongestionControl::Cubic(ops) => ops.collapse_cwnd(r),
            CongestionControl::Bbr(ops) => ops.collapse_cwnd(r),
        }
    }

    open spec fn after_checkpoint(
        self,
        s: CongestionState,
    ) -> (Self, CongestionState) {
        match self {
            CongestionControl::Reno(ops) => {
                let (ops, path) = ops.after_checkpoint(s);
                (CongestionControl::Reno(ops), path)
            },
            CongestionControl::Cubic(ops) => {
                let (ops, path) = ops.after_checkpoint(s);
                (CongestionControl::Cubic(ops), path)
            },
            CongestionControl::Bbr(ops) => {
                let (ops, path) = ops.after_checkpoint(s);
                (CongestionControl::Bbr(ops), path)
            },
        }
    }

    fn checkpoint(
        &mut self,
        r: &mut CongestionState,
    ) {
        match self {
            CongestionControl::Reno(ops) => ops.checkpoint(r),
            CongestionControl::Cubic(ops) => ops.checkpoint(r),
            CongestionControl::Bbr(ops) => ops.checkpoint(r),
        }
    }

    open spec fn after_rollback(
        self,
        s: CongestionState,
    ) -> (Self, CongestionState, bool) {
        match self {
            CongestionControl::Reno(ops) => {
                let (ops, path, rest) = ops.after_rollback(s);
                (CongestionControl::Reno(ops), path, rest)
            },
            CongestionControl::Cubic(ops) => {
                let (ops, path, rest) = ops.after_rollback(s);
                (CongestionControl::Cubic(ops), path, rest)
            },
            CongestionControl::Bbr(ops) => {
                let (ops, path, rest) = ops.after_rollback(s);
                (CongestionControl::Bbr(ops), path, rest)
            },
        }
    }

    fn rollback(
        &mut self,
        r: &mut CongestionState,
    ) -> (restored: bool) {
        match self {
            CongestionControl::Reno(ops) => ops.rollback(r),
            CongestionControl::Cubic(ops) => ops.rollback(r),
            CongestionControl::Bbr(ops) => ops.rollback(r),
        }
    }

    open spec fn custom_pacing(self) -> bool {
        match self {
            CongestionControl::Reno(ops) => ops.custom_pacing(),
            CongestionControl::Cubic(ops) => ops.custom_pacing(),
            CongestionControl::Bbr(ops) => ops.custom_pacing(),
        }
    }

    fn has_custom_pacing(&self) -> (r: bool) {
        match self {
            CongestionControl::Reno(ops) => ops.has_custom_pacing(),
            CongestionControl::Cubic(ops) => ops.has_custom_pacing(),
            CongestionControl::Bbr(ops) => ops.has_custom_pacing(),
        }
    }
}

} // verus!
