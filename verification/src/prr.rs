//! Proportional rate reduction: how much may be sent during recovery.
use vstd::prelude::*;

verus! {

#[derive(Clone, Copy, Debug, PartialEq, Eq, Structural)]
pub struct PRR {
    /// Bytes delivered since the start of recovery.
    pub prr_delivered: usize,
    /// Bytes in flight at the start of recovery.
    pub recoverfs: usize,
    /// Bytes sent since the start of recovery.
    pub prr_out: usize,
    /// Bytes that may be sent beyond the congestion window.
    pub snd_cnt: usize,
}

impl PRR {
    pub open spec fn idle() -> PRR {
        PRR { prr_delivered: 0, recoverfs: 0, prr_out: 0, snd_cnt: 0 }
    }

    /// The state once `sent_bytes` more have been sent.
    pub open spec fn after_sent(self, sent_bytes: usize) -> PRR {
        PRR {
            prr_out: if self.prr_out + sent_bytes > usize::MAX {
                usize::MAX
            } else {
                (self.prr_out + sent_bytes) as usize
            },
            snd_cnt: if self.snd_cnt >= sent_bytes {
                (self.snd_cnt - sent_bytes) as usize
            } else {
                0
            },
            ..self
        }
    }

    pub fn new() -> (p: PRR)
        ensures
            p == Self::idle(),
    {
        PRR { prr_delivered: 0, recoverfs: 0, prr_out: 0, snd_cnt: 0 }
    }

    pub fn on_packet_sent(&mut self, sent_bytes: usize)
        ensures
            *final(self) == old(self).after_sent(sent_bytes),
    {
        self.prr_out = self.prr_out.saturating_add(sent_bytes);
        self.snd_cnt = self.snd_cnt.saturating_sub(sent_bytes);
    }
}

} // verus!
