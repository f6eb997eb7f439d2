//! What a client and the signalling server say to each other.
//!
//! Every message has a view in which strings are character sequences and lists are mathematical
//! sequences; the contracts of the server speak of messages through that view.

use vstd::prelude::*;

verus! {

/// A client that understands [`ServerMessage::LobbyMigratable`] and
/// [`ServerMessage::HostChanged`]: a lobby it hosts outlives it, and a lobby it is in can hand it
/// the host role.
pub const CAPABILITY_HOST_MIGRATION: u64 = 1;

/// Messages sent from client to the signalling server.
///
/// **Append only.** The wire format numbers the variants in order, so inserting one renumbers
/// every one after it, and a server built from a different commit would then read `JoinLobby` as
/// `LeaveLobby` with no error of any kind.
#[derive(Debug, PartialEq, Eq)]
pub enum ClientMessage {
    /// First message after the socket opens. The server responds with `Welcome`.
    Authenticate { display_name: String },
    /// Create a new lobby. The server responds with `LobbyCreated` or `LobbyError`.
    CreateLobby { max_players: u32 },
    /// Join an existing lobby by id. The server responds with `LobbyJoined` or `LobbyError`.
    JoinLobby { lobby_id: u64 },
    /// Join an existing lobby by its short code.
    JoinLobbyByCode { code: String },
    /// Leave the current lobby.
    LeaveLobby,
    /// Request the list of available lobbies. The server responds with `LobbyList`.
    ListLobbies,
    /// Signalling data relayed to a specific peer.
    Signal { receiver_uuid: u128, data: String },
    /// Keep-alive heartbeat.
    KeepAlive,
    /// Change the name this connection is known by, after `Authenticate`.
    ///
    /// Also updates the lobby listing when this connection hosts a lobby: `host_name` is copied
    /// at creation and would otherwise keep the name the host had then.
    SetDisplayName { display_name: String },
    /// Which of the `CAPABILITY_*` bits this client understands, sent right after `Authenticate`.
    ///
    /// The server sends a message added after a client was built only to a client that declared
    /// the capability it belongs to: an older client could not decode it.
    DeclareCapabilities { capabilities: u64 },
    /// End the lobby this connection hosts, for everyone in it: nobody takes it over. Ignored
    /// from anyone but the host.
    CloseLobby,
}

/// Messages sent from the signalling server to a client.
#[derive(Debug, PartialEq, Eq)]
pub enum ServerMessage {
    /// Response to `Authenticate`. Assigns a unique player UUID.
    Welcome { player_uuid: u128 },
    /// Lobby was successfully created. The caller is the host.
    LobbyCreated { lobby_id: u64, code: String },
    /// Successfully joined a lobby.
    LobbyJoined { lobby_id: u64, host_uuid: u128, existing_members: Vec<u128> },
    /// A lobby operation failed.
    LobbyError { reason: String },
    /// A new player joined the lobby you are in.
    PlayerJoined { player_uuid: u128 },
    /// A player left the lobby you are in.
    PlayerLeft { player_uuid: u128 },
    /// Response to `ListLobbies`.
    LobbyList { lobbies: Vec<LobbyInfo> },
    /// You were removed from the lobby (host left, lobby destroyed, etc.).
    Disconnected { reason: String },
    /// Relayed signalling data from another peer.
    Signal { sender_uuid: u128, data: String },
    /// The lobby you created or joined survives its host: when the host leaves, another member
    /// takes it over and you are told so with [`HostChanged`](ServerMessage::HostChanged), rather
    /// than being removed with `Disconnected`.
    ///
    /// Sent only to a connection that declared [`CAPABILITY_HOST_MIGRATION`], right after
    /// `LobbyCreated` or `LobbyJoined`, and only for a lobby whose host declared it too.
    /// `idle_timeout_secs` is how long this server waits on a silent connection before it counts
    /// it gone, which bounds how long a member can wait to hear who the new host is.
    LobbyMigratable { lobby_id: u64, idle_timeout_secs: u32 },
    /// The host left and `new_host` hosts the lobby now, under the same id and code.
    ///
    /// `members` is everyone still in the lobby, the new host and the recipient included, in the
    /// order they joined. Sent only in a lobby that was
    /// [`LobbyMigratable`](ServerMessage::LobbyMigratable).
    HostChanged {
        lobby_id: u64,
        previous_host: u128,
        new_host: u128,
        code: String,
        members: Vec<u128>,
    },
}

/// Summary information about a lobby, returned in lobby listings.
#[derive(Debug, PartialEq, Eq)]
pub struct LobbyInfo {
    pub lobby_id: u64,
    pub code: String,
    pub host_name: String,
    pub player_count: u32,
    pub max_players: u32,
}

/// The mathematical content of a [`LobbyInfo`].
pub struct LobbyInfoView {
    pub lobby_id: u64,
    pub code: Seq<char>,
    pub host_name: Seq<char>,
    pub player_count: u32,
    pub max_players: u32,
}

impl View for LobbyInfo {
    type V = LobbyInfoView;

    open spec fn view(&self) -> LobbyInfoView {
        LobbyInfoView {
            lobby_id: self.lobby_id,
            code: self.code@,
            host_name: self.host_name@,
            player_count: self.player_count,
            max_players: self.max_players,
        }
    }
}

impl Clone for LobbyInfo {
    fn clone(&self) -> (copy: Self)
        ensures
            copy@ == self@,
    {
        LobbyInfo {
            lobby_id: self.lobby_id,
            code: self.code.clone(),
            host_name: self.host_name.clone(),
            player_count: self.player_count,
            max_players: self.max_players,
        }
    }
}

/// The mathematical content of a [`ServerMessage`].
pub enum ServerMessageView {
    Welcome { player_uuid: u128 },
    LobbyCreated { lobby_id: u64, code: Seq<char> },
    LobbyJoined { lobby_id: u64, host_uuid: u128, existing_members: Seq<u128> },
    LobbyError { reason: Seq<char> },
    PlayerJoined { player_uuid: u128 },
    PlayerLeft { player_uuid: u128 },
    LobbyList { lobbies: Seq<LobbyInfoView> },
    Disconnected { reason: Seq<char> },
    Signal { sender_uuid: u128, data: Seq<char> },
    LobbyMigratable { lobby_id: u64, idle_timeout_secs: u32 },
    HostChanged {
        lobby_id: u64,
        previous_host: u128,
        new_host: u128,
        code: Seq<char>,
        members: Seq<u128>,
    },
}

/// The views of a list of lobby summaries, in order.
pub open spec fn info_views(lobbies: Seq<LobbyInfo>) -> Seq<LobbyInfoView> {
    Seq::new(lobbies.len(), |i: int| lobbies[i]@)
}

impl View for ServerMessage {
    type V = ServerMessageView;

    open spec fn view(&self) -> ServerMessageView {
        match *self {
            ServerMessage::Welcome { player_uuid } => ServerMessageView::Welcome { player_uuid },
            ServerMessage::LobbyCreated { lobby_id, code } => ServerMessageView::LobbyCreated {
                lobby_id,
                code: code@,
            },
            ServerMessage::LobbyJoined { lobby_id, host_uuid, existing_members } => {
                ServerMessageView::LobbyJoined {
                    lobby_id,
                    host_uuid,
                    existing_members: existing_members@,
                }
            },
            ServerMessage::LobbyError { reason } => ServerMessageView::LobbyError {
                reason: reason@,
            },
            ServerMessage::PlayerJoined { player_uuid } => ServerMessageView::PlayerJoined {
                player_uuid,
            },
            ServerMessage::PlayerLeft { player_uuid } => ServerMessageView::PlayerLeft {
                player_uuid,
            },
            ServerMessage::LobbyList { lobbies } => ServerMessageView::LobbyList {
                lobbies: info_views(lobbies@),
            },
            ServerMessage::Disconnected { reason } => ServerMessageView::Disconnected {
                reason: reason@,
            },
            ServerMessage::Signal { sender_uuid, data } => ServerMessageView::Signal {
                sender_uuid,
                data: data@,
            },
            ServerMessage::LobbyMigratable { lobby_id, idle_timeout_secs } => {
                ServerMessageView::LobbyMigratable { lobby_id, idle_timeout_secs }
            },
            ServerMessage::HostChanged { lobby_id, previous_host, new_host, code, members } => {
                ServerMessageView::HostChanged {
                    lobby_id,
                    previous_host,
                    new_host,
                    code: code@,
                    members: members@,
                }
            },
        }
    }
}

/// A copy of a list of player ids.
pub(crate) fn copy_ids(ids: &Vec<u128>) -> (copy: Vec<u128>)
    ensures
        copy@ == ids@,
{
    let copy = ids.clone();
    assert(copy@ =~= ids@);
    copy
}

impl Clone for ServerMessage {
    fn clone(&self) -> (copy: Self)
        ensures
            copy@ == self@,
    {
        match self {
            ServerMessage::Welcome { player_uuid } => ServerMessage::Welcome {
                player_uuid: *player_uuid,
            },
            ServerMessage::LobbyCreated { lobby_id, code } => ServerMessage::LobbyCreated {
                lobby_id: *lobby_id,
                code: code.clone(),
            },
            ServerMessage::LobbyJoined { lobby_id, host_uuid, existing_members } => {
                ServerMessage::LobbyJoined {
                    lobby_id: *lobby_id,
                    host_uuid: *host_uuid,
                    existing_members: copy_ids(existing_members),
                }
            },
            ServerMessage::LobbyError { reason } => ServerMessage::LobbyError {
                reason: reason.clone(),
            },
            ServerMessage::PlayerJoined { player_uuid } => ServerMessage::PlayerJoined {
                player_uuid: *player_uuid,
            },
            ServerMessage::PlayerLeft { player_uuid } => ServerMessage::PlayerLeft {
                player_uuid: *player_uuid,
            },
            ServerMessage::LobbyList { lobbies } => {
                let copies = lobbies.clone();
                assert(info_views(copies@) =~= info_views(lobbies@));
                ServerMessage::LobbyList { lobbies: copies }
            },
            ServerMessage::Disconnected { reason } => ServerMessage::Disconnected {
                reason: reason.clone(),
            },
            ServerMessage::Signal { sender_uuid, data } => ServerMessage::Signal {
                sender_uuid: *sender_uuid,
                data: data.clone(),
            },
            ServerMessage::LobbyMigratable { lobby_id, idle_timeout_secs } => {
                ServerMessage::LobbyMigratable {
                    lobby_id: *lobby_id,
                    idle_timeout_secs: *idle_timeout_secs,
                }
            },
            ServerMessage::HostChanged { lobby_id, previous_host, new_host, code, members } => {
                ServerMessage::HostChanged {
                    lobby_id: *lobby_id,
                    previous_host: *previous_host,
                    new_host: *new_host,
                    code: code.clone(),
                    members: copy_ids(members),
                }
            },
        }
    }
}

} // verus!
