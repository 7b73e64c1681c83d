//! The packet number spaces of a connection.
use vstd::prelude::*;

verus! {

/// A packet number space, by the encryption level that its packets use.
#[derive(Clone, Copy, Debug, PartialEq, Eq, Structural)]
pub enum Epoch {
    Initial,
    Handshake,
    Application,
}

/// The number of packet number spaces.
pub const EPOCH_COUNT: usize = 3;

impl Epoch {
    /// The position of the space in the order in which the spaces are used.
    pub open spec fn rank(self) -> int {
        match self {
            Epoch::Initial => 0,
            Epoch::Handshake => 1,
            Epoch::Application => 2,
        }
    }

    pub fn index(self) -> (i: usize)
        ensures
            i == self.rank(),
            i < 3,
    {
        match self {
            Epoch::Initial => 0,
            Epoch::Handshake => 1,
            Epoch::Application => 2,
        }
    }
}

} // verus!
