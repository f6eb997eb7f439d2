//! Connections between peers: what is said to set one up, what becomes of it, and what to do when
//! its path is lost.

pub mod candidates;
pub mod negotiation;
pub mod outcomes;
pub mod recovery;
pub mod route;
pub mod signal;
pub mod socket;
