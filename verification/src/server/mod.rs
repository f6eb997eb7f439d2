//! The signalling server: its lobbies, its connections, and what each message does to them.

pub mod draws;
pub mod laws;
pub mod limiter;
pub mod lobby;
pub mod maps;
pub mod outcomes;
pub mod relay;
pub mod settings;
pub mod state;
pub mod ws_handler;
