//! A session over Steam: its lobbies, its owner, and whom a peer listens to.
//!
//! What Steam knows of a lobby is looked up in its local cache, which [`world::SteamCache`] holds.
//! Each function here takes that and the session as they stand, and says what is to be done.

pub mod events;
pub mod friends;
pub mod handshake;
pub mod outcomes;
pub mod owner;
pub mod packets;
pub mod session;
pub mod teardown;
pub mod traffic;
pub mod trust;
pub mod world;
