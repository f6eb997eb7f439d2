//! Lobbies, and the peers in them.
//!
//! A multiplayer session is one host and its clients. They find each other through a signalling
//! server ([`server`]), which hands their signals on and knows who is in which lobby, and then talk
//! directly, over WebRTC ([`sockets`], [`webrtc`]) or Steam ([`steam`]). Where two of them cannot
//! reach each other, a relay carries what they say. An in-process network ([`loopback`]) stands in
//! for all of it where a session is to be tested.
//!
//! Nothing here opens a socket, reads a clock or spawns a task. Each function takes what happened,
//! and the state it happened in, and says what comes of it. Times are whole nanoseconds.

mod lists;
pub mod loopback;
pub mod protocol;
pub mod server;
pub mod sockets;
pub mod steam;
pub mod text;
pub mod transport;
pub mod webrtc;
