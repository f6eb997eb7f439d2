//! How a session, or the attempt at one, ends.

use vstd::prelude::*;

use crate::text;
use crate::text::decimal;

verus! {

/// Why a lobby was left without this peer asking to.
#[derive(Debug, Clone, Copy, PartialEq, Eq, Structural)]
pub enum LobbyLeftReason {
    /// The host is gone, or closed the lobby.
    HostGone,
    /// The signalling server was lost.
    SignallingLost,
}

/// Why an attempt to host or to join a lobby came to nothing.
#[derive(Debug, Clone, Copy, PartialEq, Eq, Structural)]
pub enum JoinFailure {
    /// The signalling server was lost before the lobby was ready.
    SignallingLost,
    /// A player could not connect to the lobby this peer hosts.
    PlayerUnreachable(u128),
    /// The host could not be connected to.
    HostUnreachable,
    /// The connection to the host was lost.
    HostLost,
    /// The lobby to be hosted was never created.
    NotCreated,
    /// The lobby to be joined never finished connecting.
    NotJoined,
}

/// What is said on screen about a failure.
pub open spec fn failure_text(failure: JoinFailure) -> Seq<char> {
    match failure {
        JoinFailure::SignallingLost => "Lost the signalling server before the lobby was ready."@,
        JoinFailure::PlayerUnreachable(peer) => "A player could not connect to this lobby ("@
            + text::decimal_digits(peer as nat) + ")"@,
        JoinFailure::HostUnreachable => {
            "Could not connect to the host. Their network or yours is refusing the connection."@
        },
        JoinFailure::HostLost => "Lost the connection to the host."@,
        JoinFailure::NotCreated => {
            "Could not open a lobby. The signalling server did not answer."@
        },
        JoinFailure::NotJoined => "Could not join. The lobby never finished connecting."@,
    }
}

impl JoinFailure {
    /// What is said on screen about this.
    pub fn reason(&self) -> (reason: String)
        ensures
            reason@ == failure_text(*self),
    {
        match self {
            JoinFailure::SignallingLost => {
                "Lost the signalling server before the lobby was ready.".to_owned()
            },
            JoinFailure::PlayerUnreachable(peer) => {
                let mut reason = "A player could not connect to this lobby (".to_owned();
                reason.append(decimal(*peer).as_str());
                reason.append(")");
                reason
            },
            JoinFailure::HostUnreachable => {
                "Could not connect to the host. Their network or yours is refusing the connection.".to_owned()
            },
            JoinFailure::HostLost => "Lost the connection to the host.".to_owned(),
            JoinFailure::NotCreated => {
                "Could not open a lobby. The signalling server did not answer.".to_owned()
            },
            JoinFailure::NotJoined => {
                "Could not join. The lobby never finished connecting.".to_owned()
            },
        }
    }
}

} // verus!
