//! The client of the signalling server, and a session's peers: what a lobby event, a signal, a
//! packet or a lost connection does to a game's session.
//!
//! The session itself — its lobbies and the seats in them — is the game's. Each function here
//! looks at it as it stands and says what is to be done.

pub mod connection;
pub mod deferred;
pub mod events;
pub mod handshake;
pub mod outcome;
pub mod outcomes;
pub mod peers;
pub mod ping;
pub mod requests;
pub mod session;
pub mod signaller;
pub mod traffic;
pub mod trust;
pub mod world;
