//! The server's word as a socket hears it that sets its own connections up: who it is, who came,
//! who left, and what peers signal.

use vstd::prelude::*;

use super::connection;
use super::connection::{
    dispatch_server_message, ConnectionPhase, Dispatch, LobbyEvent, ServerConnection,
};
use crate::protocol::{ClientMessage, ServerMessage};

verus! {

/// Something a socket hears of its peers.
#[derive(Debug, PartialEq, Eq)]
pub enum SignallerEvent {
    IdAssigned(u128),
    NewPeer(u128),
    PeerLeft(u128),
    /// What `sender` signalled, still encoded.
    Signal { sender: u128, data: String },
}

/// What a socket hears of a message; what concerns only the lobby it does not hear.
pub open spec fn heard(message: ServerMessage) -> Option<SignallerEvent> {
    match message {
        ServerMessage::Welcome { player_uuid } => Some(SignallerEvent::IdAssigned(player_uuid)),
        ServerMessage::PlayerJoined { player_uuid } => Some(SignallerEvent::NewPeer(player_uuid)),
        ServerMessage::PlayerLeft { player_uuid } => Some(SignallerEvent::PeerLeft(player_uuid)),
        ServerMessage::Signal { sender_uuid, data } => Some(
            SignallerEvent::Signal { sender: sender_uuid, data },
        ),
        _ => None,
    }
}

/// What a socket hears of a message. The data of a signal is copied: the lobby hears of the
/// message as well.
pub fn signaller_event(message: &ServerMessage) -> (event: Option<SignallerEvent>)
    ensures
        event == heard(*message),
{
    match message {
        ServerMessage::Welcome { player_uuid } => Some(SignallerEvent::IdAssigned(*player_uuid)),
        ServerMessage::PlayerJoined { player_uuid } => Some(SignallerEvent::NewPeer(*player_uuid)),
        ServerMessage::PlayerLeft { player_uuid } => Some(SignallerEvent::PeerLeft(*player_uuid)),
        ServerMessage::Signal { sender_uuid, data } => Some(
            SignallerEvent::Signal { sender: *sender_uuid, data: data.clone() },
        ),
        _ => None,
    }
}

/// What a message of the server is to both who listen.
#[derive(Debug, PartialEq, Eq)]
pub struct Hearing {
    /// What the socket hears.
    pub socket: Option<SignallerEvent>,
    /// What the lobby hears.
    pub lobby: Option<LobbyEvent>,
}

/// What the lobby hears of a message; what is between peers it does not hear.
pub open spec fn heard_by_lobby(message: ServerMessage) -> Option<LobbyEvent> {
    match connection::dispatched(message) {
        Dispatch::Lobby(event) => Some(event),
        Dispatch::Signal { sender: _, data: _ } => None,
    }
}

/// What a message of the server is to the socket and to the lobby. Who this peer is, who came and
/// who left goes to both.
pub fn hear(message: ServerMessage) -> (hearing: Hearing)
    ensures
        hearing.socket == heard(message),
        hearing.lobby == heard_by_lobby(message),
{
    let socket = signaller_event(&message);
    let lobby = match dispatch_server_message(message) {
        Dispatch::Lobby(event) => Some(event),
        Dispatch::Signal { sender: _, data: _ } => None,
    };
    Hearing { socket, lobby }
}

/// No message of the server is lost: who this peer is, who came and who left is heard by the socket
/// and by the lobby, what peers signal by the socket alone, and everything else by the lobby alone.
pub proof fn law_every_message_is_heard(message: ServerMessage)
    ensures
        message matches ServerMessage::Welcome { player_uuid } ==> {
            &&& heard(message) == Some(SignallerEvent::IdAssigned(player_uuid))
            &&& heard_by_lobby(message) == Some(LobbyEvent::Welcome { player_uuid })
        },
        message matches ServerMessage::PlayerJoined { player_uuid } ==> {
            &&& heard(message) == Some(SignallerEvent::NewPeer(player_uuid))
            &&& heard_by_lobby(message) == Some(LobbyEvent::PlayerJoined { player_uuid })
        },
        message matches ServerMessage::PlayerLeft { player_uuid } ==> {
            &&& heard(message) == Some(SignallerEvent::PeerLeft(player_uuid))
            &&& heard_by_lobby(message) == Some(LobbyEvent::PlayerLeft { player_uuid })
        },
        message is Signal <==> heard(message) is Some && heard_by_lobby(message) is None,
        heard(message) is Some || heard_by_lobby(message) is Some,
        heard(message) is Some && heard_by_lobby(message) is Some ==> message is Welcome
            || message is PlayerJoined || message is PlayerLeft,
{
}

/// Something a socket asks to be sent.
#[derive(Debug, PartialEq, Eq)]
pub enum SignallerRequest {
    /// A signal for `receiver`, encoded.
    Signal { receiver: u128, data: String },
    KeepAlive,
}

/// The message that a request goes to the server as.
pub fn request_message(request: SignallerRequest) -> (message: ClientMessage)
    ensures
        message == match request {
            SignallerRequest::Signal { receiver, data } => ClientMessage::Signal {
                receiver_uuid: receiver,
                data,
            },
            SignallerRequest::KeepAlive => ClientMessage::KeepAlive,
        },
{
    match request {
        SignallerRequest::Signal { receiver, data } => ClientMessage::Signal {
            receiver_uuid: receiver,
            data,
        },
        SignallerRequest::KeepAlive => ClientMessage::KeepAlive,
    }
}

/// Why there is no signaller to be had.
#[derive(Debug, Clone, Copy, PartialEq, Eq, Structural)]
pub enum SignallerError {
    /// The builder made its signaller already.
    CalledTwice,
}

impl SignallerError {
    /// What is said about this.
    pub fn reason(self) -> (reason: &'static str)
        ensures
            reason@ == "SignallerBuilder::new_signaller called more than once"@,
    {
        match self {
            SignallerError::CalledTwice => "SignallerBuilder::new_signaller called more than once",
        }
    }
}

/// Makes one signaller. There is one queue of lobby commands, and the connection of the signaller
/// that was made has it.
#[derive(Debug)]
pub struct EnsembleSignallerBuilder {
    /// The name this peer goes by.
    pub display_name: String,
    /// Whether the queue of lobby commands was handed out.
    pub taken: bool,
}

impl EnsembleSignallerBuilder {
    pub fn new(display_name: String) -> (builder: Self)
        ensures
            builder.display_name == display_name,
            !builder.taken,
    {
        EnsembleSignallerBuilder { display_name, taken: false }
    }

    /// The connection to be run for the signaller, which is still to be opened. A builder makes one,
    /// and refuses to make a second.
    pub fn new_signaller(&mut self) -> (result: Result<ServerConnection, SignallerError>)
        ensures
            final(self).taken,
            final(self).display_name@ == old(self).display_name@,
            match result {
                Ok(connection) => {
                    &&& !old(self).taken
                    &&& connection.phase == ConnectionPhase::Opening
                    &&& connection.display_name@ == old(self).display_name@
                },
                Err(error) => old(self).taken && error == SignallerError::CalledTwice,
            },
    {
        if self.taken {
            return Err(SignallerError::CalledTwice);
        }
        self.taken = true;
        Ok(ServerConnection::new(self.display_name.clone()))
    }
}

} // verus!
