//! What the signalling server says, sorted into what happens to the lobby and what is between
//! peers.

use vstd::prelude::*;

use crate::protocol::{ClientMessage, LobbyInfo, ServerMessage};

verus! {

/// Something that happens to the lobby.
#[derive(Debug, PartialEq, Eq)]
pub enum LobbyEvent {
    Welcome { player_uuid: u128 },
    LobbyCreated { lobby_id: u64, code: String },
    LobbyJoined {
        lobby_id: u64,
        /// Who runs the lobby that was joined. The one fact a client's trust rests on: it is the
        /// only peer whose offer is answered, whose packets are read, and whose loss ends the
        /// session.
        host_uuid: u128,
        /// The other members at the time of joining. Informational: a client connects to its
        /// host only, never to them.
        existing_members: Vec<u128>,
    },
    LobbyError { reason: String },
    PlayerJoined { player_uuid: u128 },
    PlayerLeft { player_uuid: u128 },
    LobbyList { lobbies: Vec<LobbyInfo> },
    Disconnected { reason: String },
    /// The lobby survives its host.
    LobbyMigratable { idle_timeout_secs: u32 },
    /// The server named a new host.
    HostChanged {
        lobby_id: u64,
        previous_host: u128,
        new_host: u128,
        code: String,
        members: Vec<u128>,
    },
    /// The connection to the signalling server is gone: it closed, errored, or never opened.
    ///
    /// Not said when this side dropped the connection itself — that is a teardown already under
    /// way, not a loss.
    SignallingClosed,
}

/// Where a message of the server goes.
#[derive(Debug, PartialEq, Eq)]
pub enum Dispatch {
    /// To the lobby.
    Lobby(LobbyEvent),
    /// Between peers: what `sender` signalled, still encoded.
    Signal { sender: u128, data: String },
}

/// Where a message of the server goes.
pub open spec fn dispatched(message: ServerMessage) -> Dispatch {
    match message {
        ServerMessage::Welcome { player_uuid } => Dispatch::Lobby(
            LobbyEvent::Welcome { player_uuid },
        ),
        ServerMessage::PlayerJoined { player_uuid } => Dispatch::Lobby(
            LobbyEvent::PlayerJoined { player_uuid },
        ),
        ServerMessage::PlayerLeft { player_uuid } => Dispatch::Lobby(
            LobbyEvent::PlayerLeft { player_uuid },
        ),
        ServerMessage::Signal { sender_uuid, data } => Dispatch::Signal {
            sender: sender_uuid,
            data,
        },
        ServerMessage::LobbyCreated { lobby_id, code } => Dispatch::Lobby(
            LobbyEvent::LobbyCreated { lobby_id, code },
        ),
        ServerMessage::LobbyJoined { lobby_id, host_uuid, existing_members } => Dispatch::Lobby(
            LobbyEvent::LobbyJoined { lobby_id, host_uuid, existing_members },
        ),
        ServerMessage::LobbyError { reason } => Dispatch::Lobby(LobbyEvent::LobbyError { reason }),
        ServerMessage::LobbyList { lobbies } => Dispatch::Lobby(LobbyEvent::LobbyList { lobbies }),
        ServerMessage::Disconnected { reason } => Dispatch::Lobby(
            LobbyEvent::Disconnected { reason },
        ),
        ServerMessage::LobbyMigratable { lobby_id: _, idle_timeout_secs } => Dispatch::Lobby(
            LobbyEvent::LobbyMigratable { idle_timeout_secs },
        ),
        ServerMessage::HostChanged { lobby_id, previous_host, new_host, code, members } => {
            Dispatch::Lobby(
                LobbyEvent::HostChanged { lobby_id, previous_host, new_host, code, members },
            )
        },
    }
}

/// Sort a message of the server.
pub fn dispatch_server_message(message: ServerMessage) -> (dispatch: Dispatch)
    ensures
        dispatch == dispatched(message),
{
    match message {
        ServerMessage::Welcome { player_uuid } => Dispatch::Lobby(
            LobbyEvent::Welcome { player_uuid },
        ),
        ServerMessage::PlayerJoined { player_uuid } => Dispatch::Lobby(
            LobbyEvent::PlayerJoined { player_uuid },
        ),
        ServerMessage::PlayerLeft { player_uuid } => Dispatch::Lobby(
            LobbyEvent::PlayerLeft { player_uuid },
        ),
        ServerMessage::Signal { sender_uuid, data } => Dispatch::Signal {
            sender: sender_uuid,
            data,
        },
        ServerMessage::LobbyCreated { lobby_id, code } => Dispatch::Lobby(
            LobbyEvent::LobbyCreated { lobby_id, code },
        ),
        ServerMessage::LobbyJoined { lobby_id, host_uuid, existing_members } => Dispatch::Lobby(
            LobbyEvent::LobbyJoined { lobby_id, host_uuid, existing_members },
        ),
        ServerMessage::LobbyError { reason } => Dispatch::Lobby(LobbyEvent::LobbyError { reason }),
        ServerMessage::LobbyList { lobbies } => Dispatch::Lobby(LobbyEvent::LobbyList { lobbies }),
        ServerMessage::Disconnected { reason } => Dispatch::Lobby(
            LobbyEvent::Disconnected { reason },
        ),
        ServerMessage::LobbyMigratable { lobby_id: _, idle_timeout_secs } => Dispatch::Lobby(
            LobbyEvent::LobbyMigratable { idle_timeout_secs },
        ),
        ServerMessage::HostChanged { lobby_id, previous_host, new_host, code, members } => {
            Dispatch::Lobby(
                LobbyEvent::HostChanged { lobby_id, previous_host, new_host, code, members },
            )
        },
    }
}

/// How far a connection to the server has come.
#[derive(Debug, Clone, Copy, PartialEq, Eq, Structural)]
pub enum ConnectionPhase {
    /// It is being opened, or this peer is saying who it is.
    Opening,
    /// Messages go both ways.
    Open,
    /// It is over.
    Over,
}

/// Something that happened to a connection to the server.
#[derive(Debug, PartialEq, Eq)]
pub enum ConnectionInput {
    /// It opened.
    Opened,
    /// It could not be opened.
    OpenFailed,
    /// What was to be sent was sent.
    Sent,
    /// What was to be sent could not be.
    SendFailed,
    /// What was to be sent could not be encoded.
    EncodeFailed,
    /// A message of the server arrived.
    Message(ServerMessage),
    /// A message of the server arrived that could not be decoded, or a frame that is no message.
    Noise,
    /// The server closed it, or the stream ended without a word.
    Closed,
    /// The game has something to say to the server.
    Command(ClientMessage),
    /// The game let go of its end.
    CommandsEnded,
}

/// What is to be done about a connection to the server.
#[derive(Debug, PartialEq, Eq)]
pub enum ConnectionStep {
    /// Nothing: something else will happen.
    Wait,
    Send(ClientMessage),
    Deliver(Dispatch),
    /// It is over. `lost` says whether that is news: the server went away, as opposed to the game
    /// letting go of its end.
    Stop { lost: bool },
}

/// A connection to the signalling server.
#[derive(Debug)]
pub struct ServerConnection {
    pub phase: ConnectionPhase,
    /// The name this peer goes by.
    pub display_name: String,
}

/// How far the connection has come after an input.
pub open spec fn phase_after(phase: ConnectionPhase, input: ConnectionInput) -> ConnectionPhase {
    match (phase, input) {
        (ConnectionPhase::Over, _) => ConnectionPhase::Over,
        (_, ConnectionInput::OpenFailed) => ConnectionPhase::Over,
        (_, ConnectionInput::SendFailed) => ConnectionPhase::Over,
        (_, ConnectionInput::Closed) => ConnectionPhase::Over,
        (_, ConnectionInput::CommandsEnded) => ConnectionPhase::Over,
        // Without its name this peer is nobody to the server.
        (ConnectionPhase::Opening, ConnectionInput::EncodeFailed) => ConnectionPhase::Over,
        (ConnectionPhase::Opening, ConnectionInput::Sent) => ConnectionPhase::Open,
        _ => phase,
    }
}

/// What is to be done about an input.
pub open spec fn step_for(phase: ConnectionPhase, name: Seq<char>, input: ConnectionInput, step:
    ConnectionStep) -> bool {
    match (phase, input) {
        (ConnectionPhase::Over, _) => step == (ConnectionStep::Stop { lost: false }),
        (_, ConnectionInput::OpenFailed)
        | (_, ConnectionInput::SendFailed)
        | (_, ConnectionInput::Closed) => step == (ConnectionStep::Stop { lost: true }),
        (_, ConnectionInput::CommandsEnded)
        | (ConnectionPhase::Opening, ConnectionInput::EncodeFailed) => step == (
        ConnectionStep::Stop { lost: false }),
        (ConnectionPhase::Opening, ConnectionInput::Opened) => {
            &&& step matches ConnectionStep::Send(ClientMessage::Authenticate { display_name })
            &&& display_name@ == name
        },
        (ConnectionPhase::Open, ConnectionInput::Message(message)) => step
            == ConnectionStep::Deliver(dispatched(message)),
        (ConnectionPhase::Open, ConnectionInput::Command(command)) => step
            == ConnectionStep::Send(command),
        _ => step == ConnectionStep::Wait,
    }
}

impl ServerConnection {
    /// A connection that is being opened.
    pub fn new(display_name: String) -> (connection: Self)
        ensures
            connection.phase == ConnectionPhase::Opening,
            connection.display_name == display_name,
    {
        ServerConnection { phase: ConnectionPhase::Opening, display_name }
    }

    /// Take in what happened: what is to be done about it.
    ///
    /// The first thing said on an open connection is the name this peer goes by.
    pub fn advance(&mut self, input: ConnectionInput) -> (step: ConnectionStep)
        ensures
            final(self).phase == phase_after(old(self).phase, input),
            final(self).display_name@ == old(self).display_name@,
            step_for(old(self).phase, old(self).display_name@, input, step),
    {
        match self.phase {
            ConnectionPhase::Over => ConnectionStep::Stop { lost: false },
            ConnectionPhase::Opening => match input {
                ConnectionInput::Opened => ConnectionStep::Send(
                    ClientMessage::Authenticate { display_name: self.display_name.clone() },
                ),
                ConnectionInput::Sent => {
                    self.phase = ConnectionPhase::Open;
                    ConnectionStep::Wait
                },
                ConnectionInput::OpenFailed
                | ConnectionInput::SendFailed
                | ConnectionInput::Closed => {
                    self.phase = ConnectionPhase::Over;
                    ConnectionStep::Stop { lost: true }
                },
                ConnectionInput::CommandsEnded | ConnectionInput::EncodeFailed => {
                    self.phase = ConnectionPhase::Over;
                    ConnectionStep::Stop { lost: false }
                },
                _ => ConnectionStep::Wait,
            },
            ConnectionPhase::Open => match input {
                ConnectionInput::Message(message) => ConnectionStep::Deliver(
                    dispatch_server_message(message),
                ),
                ConnectionInput::Command(command) => ConnectionStep::Send(command),
                ConnectionInput::OpenFailed
                | ConnectionInput::SendFailed
                | ConnectionInput::Closed => {
                    self.phase = ConnectionPhase::Over;
                    ConnectionStep::Stop { lost: true }
                },
                ConnectionInput::CommandsEnded => {
                    self.phase = ConnectionPhase::Over;
                    ConnectionStep::Stop { lost: false }
                },
                _ => ConnectionStep::Wait,
            },
        }
    }
}

/// What a server says before this peer has said who it is reaches nobody, and nothing the game
/// says is sent before then either.
pub proof fn law_the_name_comes_first(name: Seq<char>, input: ConnectionInput, step: ConnectionStep)
    requires
        step_for(ConnectionPhase::Opening, name, input, step),
    ensures
        !(step is Deliver),
        step matches ConnectionStep::Send(message) ==> message is Authenticate,
{
}

/// A connection that is over stays over, and its end is told of once at most.
pub proof fn law_the_end_is_heard_once(
    phase: ConnectionPhase,
    name: Seq<char>,
    last: ConnectionInput,
    step: ConnectionStep,
    later: ConnectionInput,
    later_step: ConnectionStep,
)
    requires
        phase_after(phase, last) == ConnectionPhase::Over,
        step_for(phase, name, last, step),
        step_for(phase_after(phase, last), name, later, later_step),
    ensures
        step is Stop,
        later_step == (ConnectionStep::Stop { lost: false }),
        phase_after(phase_after(phase, last), later) == ConnectionPhase::Over,
{
}

} // verus!
