//! Loss recovery and congestion control bookkeeping of a QUIC path.
pub mod ack_laws;
pub mod algorithms;
pub mod congestion;
pub mod custody;
pub mod delivery_rate;
pub mod detection;
pub mod echo_laws;
pub mod error;
pub mod expiry;
pub mod flight;
pub mod frame;
pub mod hystart;
pub mod laws;
pub mod lists;
pub mod loss;
pub mod loss_laws;
pub mod metrics;
pub mod minmax;
pub mod model;
pub mod pacer;
pub mod packet;
pub mod prr;
pub mod quack;
pub mod quack_laws;
pub mod quacking;
pub mod ranges;
pub mod recovery;
pub mod reno;
pub mod rtt_laws;
pub mod send_laws;
pub mod sending;
pub mod sent;
pub mod sidecar;
pub mod space;
pub mod state_laws;
pub mod tally;
pub mod time;
pub mod timer_laws;
