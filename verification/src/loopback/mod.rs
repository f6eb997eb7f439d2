//! An in-process network, so a multiplayer session is something a test can assert about.
//!
//! No wall clock anywhere: one step is one frame on every peer, and the links' randomness is a
//! seeded generator. The same run twice produces the same trace.

pub mod corruption;
pub mod laws;
pub mod lifecycle;
pub mod link;
pub mod model;
pub mod network;
pub mod outcomes;
pub mod packet;
pub mod rng;
pub mod runs;
