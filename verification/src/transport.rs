//! What every transport shares.

use vstd::prelude::*;

verus! {

/// How a message is to be carried.
#[derive(Debug, Clone, Copy, PartialEq, Eq, Structural)]
pub enum SendMode {
    /// Delivered, once, and in order.
    Reliable,
    /// Like `Reliable`, and not held back to be packed with the next message.
    ReliableNoDelay,
    /// Fire and forget.
    Unreliable,
}

impl SendMode {
    /// Whether a message carried this way is delivered, once, and in order.
    pub open spec fn reliable(self) -> bool {
        self != SendMode::Unreliable
    }

    /// Whether a message carried this way is delivered, once, and in order.
    pub fn is_reliable(self) -> (reliable: bool)
        ensures
            reliable == self.reliable(),
    {
        match self {
            SendMode::Unreliable => false,
            _ => true,
        }
    }
}

} // verus!
