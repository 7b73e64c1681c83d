//! What is remembered of a packet that has been sent.
use vstd::prelude::*;

use crate::frame::Frame;
use crate::frame::Frames;
use crate::time::Duration;
use crate::time::Instant;

verus! {

/// A packet that has been sent.
pub struct Sent {
    pub sidecar_id: u32,
    pub pkt_num: u64,
    pub frames: Frames,
    pub time_sent: Instant,
    pub time_acked_sidecar: Option<Instant>,
    pub time_acked: Option<Instant>,
    pub time_lost: Option<Instant>,
    pub size: usize,
    pub ack_eliciting: bool,
    pub in_flight: bool,
    pub delivered: usize,
    pub delivered_time: Instant,
    pub first_sent_time: Instant,
    pub is_app_limited: bool,
    pub has_data: bool,
}

/// A packet that has been newly acknowledged.
#[derive(Clone, Copy, Debug, PartialEq, Eq, Structural)]
pub struct Acked {
    pub pkt_num: u64,
    pub time_sent: Instant,
    pub size: usize,
    pub rtt: Duration,
    pub delivered: usize,
    pub delivered_time: Instant,
    pub first_sent_time: Instant,
    pub is_app_limited: bool,
}

/// What a [`Sent`] says, with its frames as a sequence.
#[verifier::ext_equal]
pub struct SentView {
    pub sidecar_id: u32,
    pub pkt_num: u64,
    pub frames: Seq<Frame>,
    pub time_sent: Instant,
    pub time_acked_sidecar: Option<Instant>,
    pub time_acked: Option<Instant>,
    pub time_lost: Option<Instant>,
    pub size: usize,
    pub ack_eliciting: bool,
    pub in_flight: bool,
    pub delivered: usize,
    pub delivered_time: Instant,
    pub first_sent_time: Instant,
    pub is_app_limited: bool,
    pub has_data: bool,
}

impl View for Sent {
    type V = SentView;

    open spec fn view(&self) -> SentView {
        SentView {
            sidecar_id: self.sidecar_id,
            pkt_num: self.pkt_num,
            frames: self.frames@,
            time_sent: self.time_sent,
            time_acked_sidecar: self.time_acked_sidecar,
            time_acked: self.time_acked,
            time_lost: self.time_lost,
            size: self.size,
            ack_eliciting: self.ack_eliciting,
            in_flight: self.in_flight,
            delivered: self.delivered,
            delivered_time: self.delivered_time,
            first_sent_time: self.first_sent_time,
            is_app_limited: self.is_app_limited,
            has_data: self.has_data,
        }
    }
}

impl SentView {
    /// The times of the packet are clock readings.
    pub open spec fn wf(self) -> bool {
        &&& self.time_sent.in_range()
        &&& self.delivered_time.in_range()
        &&& self.first_sent_time.in_range()
        &&& self.time_lost matches Some(t) ==> t.in_range()
    }

    /// The packet has been neither acknowledged nor declared lost.
    pub open spec fn outstanding(self) -> bool {
        self.time_acked is None && self.time_lost is None
    }

    /// The packet has been acknowledged neither by the peer nor by the proxy.
    pub open spec fn unacked(self) -> bool {
        self.time_acked is None && self.time_acked_sidecar is None
    }

    /// The record of the packet's acknowledgement at time `now`.
    pub open spec fn acked_at(self, now: Instant) -> Acked {
        Acked {
            pkt_num: self.pkt_num,
            time_sent: self.time_sent,
            size: self.size,
            rtt: now.since(self.time_sent),
            delivered: self.delivered,
            delivered_time: self.delivered_time,
            first_sent_time: self.first_sent_time,
            is_app_limited: self.is_app_limited,
        }
    }
}

impl Sent {
    /// The record of the packet's acknowledgement at time `now`.
    pub fn acked_record(&self, now: Instant) -> (a: Acked)
        requires
            self@.wf(),
            now.in_range(),
        ensures
            a == self@.acked_at(now),
            a.wf(),
    {
        Acked {
            pkt_num: self.pkt_num,
            time_sent: self.time_sent,
            size: self.size,
            rtt: now.saturating_duration_since(self.time_sent),
            delivered: self.delivered,
            delivered_time: self.delivered_time,
            first_sent_time: self.first_sent_time,
            is_app_limited: self.is_app_limited,
        }
    }
}

impl Acked {
    pub open spec fn wf(self) -> bool {
        &&& self.time_sent.in_range()
        &&& self.delivered_time.in_range()
        &&& self.first_sent_time.in_range()
        &&& self.rtt.in_range()
    }
}

} // verus!
