//! The ways in which an operation can fail.
use vstd::prelude::*;

verus! {

#[derive(Clone, Copy, Debug, PartialEq, Eq, Structural)]
pub enum Error {
    /// The name of a congestion control algorithm is not known.
    CongestionControl,
    /// The reset could not be sent to the proxy.
    BadQuackResetSocket,
}

} // verus!
