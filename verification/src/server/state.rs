//! What the signalling server remembers: lobbies, the codes they are found by, the connections,
//! and the messages it owes them.

use dashmap::DashMap;
use vstd::prelude::*;

use super::maps;
use crate::protocol::{copy_ids, ServerMessage, ServerMessageView};

verus! {

/// A count in thousandths: `Milli(1500)` is one and a half.
#[derive(Debug, Clone, Copy, PartialEq, Eq)]
pub struct Milli(pub u64);

/// What one connection is allowed to do, and how long it may stay silent.
///
/// The defaults are what a deployment gets from [`ServerState::new`]. They are generous for a
/// game client — one that sends twenty signalling messages a second sustained is misbehaving —
/// and tight enough that a flood costs the flooder its connection rather than everyone their
/// server.
#[derive(Debug, Clone, Copy, PartialEq, Eq)]
pub struct Limits {
    /// A connection that sends nothing for this many nanoseconds is closed and its player leaves
    /// its lobby. `KeepAlive` counts as sending something; that is what it is for.
    pub idle_timeout_nanos: u128,
    /// Sustained messages per second, over every kind of frame.
    pub messages_per_second: Milli,
    /// How many messages may arrive at once before the sustained rate applies.
    pub message_burst: Milli,
    /// Sustained rate for `CreateLobby` and `JoinLobbyByCode`, on top of the general one.
    ///
    /// A join by code is a guess at a four-letter code, and this is what makes guessing
    /// impractical; creating a lobby allocates server state, and this is what caps it.
    pub lobby_ops_per_second: Milli,
    /// Burst for the lobby-operation limit. Two, so that a mistyped code retried straight away
    /// still gets a real answer.
    pub lobby_ops_burst: Milli,
}

/// Nanoseconds in a second.
pub const NANOS_PER_SECOND: u128 = 1_000_000_000;

/// The limits a deployment gets unless it asks for others.
pub open spec fn default_limits() -> Limits {
    Limits {
        idle_timeout_nanos: 60_000_000_000,
        messages_per_second: Milli(20_000),
        message_burst: Milli(40_000),
        lobby_ops_per_second: Milli(1_000),
        lobby_ops_burst: Milli(2_000),
    }
}

impl Default for Limits {
    fn default() -> (limits: Self)
        ensures
            limits == default_limits(),
    {
        Limits {
            idle_timeout_nanos: 60_000_000_000,
            messages_per_second: Milli(20_000),
            message_burst: Milli(40_000),
            lobby_ops_per_second: Milli(1_000),
            lobby_ops_burst: Milli(2_000),
        }
    }
}

/// One lobby. `members` is in the order they joined.
#[derive(Debug)]
pub struct LobbyState {
    pub lobby_id: u64,
    pub code: String,
    pub host_uuid: u128,
    pub host_name: String,
    pub members: Vec<u128>,
    pub max_players: u32,
    /// Whether the lobby outlives its host: the host declared that it can.
    pub host_migration: bool,
}

/// The mathematical content of a [`LobbyState`].
pub struct LobbyView {
    pub lobby_id: u64,
    pub code: Seq<char>,
    pub host_uuid: u128,
    pub host_name: Seq<char>,
    pub members: Seq<u128>,
    pub max_players: u32,
    pub host_migration: bool,
}

impl View for LobbyState {
    type V = LobbyView;

    open spec fn view(&self) -> LobbyView {
        LobbyView {
            lobby_id: self.lobby_id,
            code: self.code@,
            host_uuid: self.host_uuid,
            host_name: self.host_name@,
            members: self.members@,
            max_players: self.max_players,
            host_migration: self.host_migration,
        }
    }
}

impl Clone for LobbyState {
    fn clone(&self) -> (copy: Self)
        ensures
            copy@ == self@,
    {
        LobbyState {
            lobby_id: self.lobby_id,
            code: self.code.clone(),
            host_uuid: self.host_uuid,
            host_name: self.host_name.clone(),
            members: copy_ids(&self.members),
            max_players: self.max_players,
            host_migration: self.host_migration,
        }
    }
}

/// One authenticated connection.
#[derive(Debug)]
pub struct ConnectionHandle {
    pub display_name: String,
    pub lobby_id: Option<u64>,
    /// The `CAPABILITY_*` bits the client declared.
    pub capabilities: u64,
}

/// The mathematical content of a [`ConnectionHandle`].
pub struct ConnectionView {
    pub display_name: Seq<char>,
    pub lobby_id: Option<u64>,
    pub capabilities: u64,
}

impl ConnectionView {
    /// Whether the client declared every bit of `capability`.
    pub open spec fn declares(self, capability: u64) -> bool {
        self.capabilities & capability == capability
    }
}

impl View for ConnectionHandle {
    type V = ConnectionView;

    open spec fn view(&self) -> ConnectionView {
        ConnectionView {
            display_name: self.display_name@,
            lobby_id: self.lobby_id,
            capabilities: self.capabilities,
        }
    }
}

impl Clone for ConnectionHandle {
    fn clone(&self) -> (copy: Self)
        ensures
            copy@ == self@,
    {
        ConnectionHandle {
            display_name: self.display_name.clone(),
            lobby_id: self.lobby_id,
            capabilities: self.capabilities,
        }
    }
}

impl ConnectionHandle {
    /// Whether the client declared every bit of `capability`.
    pub fn declares(&self, capability: u64) -> (declared: bool)
        ensures
            declared == self@.declares(capability),
    {
        self.capabilities & capability == capability
    }
}

/// A message on its way to a connection.
#[derive(Debug, PartialEq, Eq)]
pub struct Outgoing {
    pub to: u128,
    pub message: ServerMessage,
}

/// The mathematical content of an [`Outgoing`].
pub struct OutgoingView {
    pub to: u128,
    pub message: ServerMessageView,
}

impl View for Outgoing {
    type V = OutgoingView;

    open spec fn view(&self) -> OutgoingView {
        OutgoingView { to: self.to, message: self.message@ }
    }
}

/// The views of queued messages, in order.
pub open spec fn outgoing_views(queue: Seq<Outgoing>) -> Seq<OutgoingView> {
    Seq::new(queue.len(), |i: int| queue[i]@)
}

/// Everything the server remembers.
///
/// Messages are queued, not sent: whoever runs the server takes them with
/// [`ServerState::take_outbox`] before it lets the next event in, and hands each to its
/// connection in order.
pub struct ServerState {
    lobbies: DashMap<u64, LobbyState>,
    lobby_codes: DashMap<String, u64>,
    connections: DashMap<u128, ConnectionHandle>,
    limits: Limits,
    outbox: Vec<Outgoing>,
}

/// The mathematical content of a [`ServerState`].
#[verifier::ext_equal]
pub struct ServerView {
    pub lobbies: Map<u64, LobbyView>,
    pub codes: Map<Seq<char>, u64>,
    pub connections: Map<u128, ConnectionView>,
    pub limits: Limits,
    pub outbox: Seq<OutgoingView>,
}

impl ServerView {
    /// Whether `uuid` is connected and declared every bit of `capability`.
    pub open spec fn declares(self, uuid: u128, capability: u64) -> bool {
        self.connections.dom().contains(uuid) && self.connections[uuid].declares(capability)
    }

    /// The lobby `uuid`'s connection says it is in.
    pub open spec fn lobby_of(self, uuid: u128) -> Option<u64> {
        if self.connections.dom().contains(uuid) {
            self.connections[uuid].lobby_id
        } else {
            None
        }
    }

    /// `message` is queued for `to`, if it is connected.
    pub open spec fn queued(self, to: u128, message: ServerMessageView) -> ServerView {
        if self.connections.dom().contains(to) {
            ServerView { outbox: self.outbox.push(OutgoingView { to, message }), ..self }
        } else {
            self
        }
    }

    /// `message` is queued for each of `recipients` that is connected, in order.
    pub open spec fn queued_all(
        self,
        recipients: Seq<u128>,
        message: ServerMessageView,
    ) -> ServerView
        decreases recipients.len(),
    {
        if recipients.len() == 0 {
            self
        } else {
            self.queued_all(recipients.drop_last(), message).queued(recipients.last(), message)
        }
    }

    /// `uuid`'s connection, if there is one, is in the lobby `lobby_id` (`None`: in none).
    pub open spec fn placed(self, uuid: u128, lobby_id: Option<u64>) -> ServerView {
        if self.connections.dom().contains(uuid) {
            ServerView {
                connections: self.connections.insert(
                    uuid,
                    ConnectionView { lobby_id, ..self.connections[uuid] },
                ),
                ..self
            }
        } else {
            self
        }
    }

    /// Whether a lobby can be created under `id`: it is not zero, and no lobby uses it.
    pub open spec fn id_is_free(self, id: u64) -> bool {
        id != 0 && !self.lobbies.dom().contains(id)
    }

    /// Whether `code` is a code that no lobby uses.
    pub open spec fn code_is_free(self, code: Seq<char>) -> bool {
        is_code(code) && !self.codes.dom().contains(code)
    }

    /// Whether one more lobby fits: some id and some code are free.
    pub open spec fn has_room(self) -> bool {
        &&& exists|id: u64| self.id_is_free(id)
        &&& exists|code: Seq<char>| self.code_is_free(code)
    }
}

/// Everyone but `gone`.
pub open spec fn all_but(gone: u128) -> spec_fn(u128) -> bool {
    |uuid: u128| uuid != gone
}

/// `members`, in order, without `gone`.
pub open spec fn without(members: Seq<u128>, gone: u128) -> Seq<u128> {
    members.filter(all_but(gone))
}

/// A lobby code: four capital letters.
pub open spec fn is_code(code: Seq<char>) -> bool {
    &&& code.len() == CODE_LENGTH
    &&& forall|i: int| 0 <= i < CODE_LENGTH ==> 'A' <= #[trigger] code[i] <= 'Z'
}

/// How many letters a lobby code has.
pub const CODE_LENGTH: usize = 4;


impl View for ServerState {
    type V = ServerView;

    closed spec fn view(&self) -> ServerView {
        ServerView {
            lobbies: maps::lobby_entries(self.lobbies),
            codes: maps::code_entries(self.lobby_codes),
            connections: maps::connection_entries(self.connections),
            limits: self.limits,
            outbox: outgoing_views(self.outbox@),
        }
    }
}

impl ServerState {
    /// A server with the default limits that knows nobody.
    pub fn new() -> (state: Self)
        ensures
            state@.lobbies.dom() == Set::<u64>::empty(),
            state@.codes.dom() == Set::<Seq<char>>::empty(),
            state@.connections.dom() == Set::<u128>::empty(),
            state@.limits == default_limits(),
            state@.outbox == Seq::<OutgoingView>::empty(),
    {
        ServerState::with_limits(Limits::default())
    }

    /// A server with these limits that knows nobody.
    pub fn with_limits(limits: Limits) -> (state: Self)
        ensures
            state@.lobbies.dom() == Set::<u64>::empty(),
            state@.codes.dom() == Set::<Seq<char>>::empty(),
            state@.connections.dom() == Set::<u128>::empty(),
            state@.limits == limits,
            state@.outbox == Seq::<OutgoingView>::empty(),
    {
        let state = ServerState {
            lobbies: maps::new_lobbies(),
            lobby_codes: maps::new_codes(),
            connections: maps::new_connections(),
            limits,
            outbox: Vec::new(),
        };
        assert(state@.outbox =~= Seq::<OutgoingView>::empty());
        state
    }

    /// What a connection is allowed to do.
    pub fn limits(&self) -> (limits: Limits)
        ensures
            limits == self@.limits,
    {
        self.limits
    }

    /// A copy of the lobby `id`.
    pub fn lobby(&self, id: u64) -> (found: Option<LobbyState>)
        ensures
            found is Some <==> self@.lobbies.dom().contains(id),
            found matches Some(lobby) ==> lobby@ == self@.lobbies[id],
    {
        maps::get_lobby(&self.lobbies, id)
    }

    /// The lobby that goes by `code`.
    pub fn lobby_by_code(&self, code: &String) -> (found: Option<u64>)
        ensures
            found is Some <==> self@.codes.dom().contains(code@),
            found matches Some(id) ==> id == self@.codes[code@],
    {
        maps::get_code(&self.lobby_codes, code)
    }

    /// A copy of the connection `uuid`.
    pub fn connection(&self, uuid: u128) -> (found: Option<ConnectionHandle>)
        ensures
            found is Some <==> self@.connections.dom().contains(uuid),
            found matches Some(connection) ==> connection@ == self@.connections[uuid],
    {
        maps::get_connection(&self.connections, uuid)
    }

    /// The id of every lobby, each once, in no particular order.
    pub(crate) fn lobby_ids(&self) -> (ids: Vec<u64>)
        ensures
            ids@.no_duplicates(),
            ids@.to_set() == self@.lobbies.dom(),
    {
        maps::lobby_ids(&self.lobbies)
    }

    /// The lobby `uuid`'s connection says it is in.
    pub fn lobby_of(&self, uuid: u128) -> (lobby_id: Option<u64>)
        ensures
            lobby_id == self@.lobby_of(uuid),
    {
        match self.connection(uuid) {
            Some(connection) => connection.lobby_id,
            None => None,
        }
    }

    /// Whether `uuid` is connected and declared every bit of `capability`.
    pub fn declares(&self, uuid: u128, capability: u64) -> (declared: bool)
        ensures
            declared == self@.declares(uuid, capability),
    {
        match self.connection(uuid) {
            Some(connection) => connection.declares(capability),
            None => false,
        }
    }

    /// `lobby` is what stands under `id`.
    pub(crate) fn put_lobby(&mut self, id: u64, lobby: LobbyState)
        ensures
            final(self)@ == (ServerView {
                lobbies: old(self)@.lobbies.insert(id, lobby@),
                ..old(self)@
            }),
    {
        maps::insert_lobby(&mut self.lobbies, id, lobby);
    }

    /// Nothing stands under `id`.
    pub(crate) fn drop_lobby(&mut self, id: u64)
        ensures
            final(self)@ == (ServerView { lobbies: old(self)@.lobbies.remove(id), ..old(self)@ }),
    {
        maps::remove_lobby(&mut self.lobbies, id);
    }

    /// `code` leads to the lobby `id`.
    pub(crate) fn put_code(&mut self, code: String, id: u64)
        ensures
            final(self)@ == (ServerView {
                codes: old(self)@.codes.insert(code@, id),
                ..old(self)@
            }),
    {
        maps::insert_code(&mut self.lobby_codes, code, id);
    }

    /// `code` leads nowhere.
    pub(crate) fn drop_code(&mut self, code: &String)
        ensures
            final(self)@ == (ServerView { codes: old(self)@.codes.remove(code@), ..old(self)@ }),
    {
        maps::remove_code(&mut self.lobby_codes, code);
    }

    /// `connection` is what stands under `uuid`.
    pub(crate) fn put_connection(&mut self, uuid: u128, connection: ConnectionHandle)
        ensures
            final(self)@ == (ServerView {
                connections: old(self)@.connections.insert(uuid, connection@),
                ..old(self)@
            }),
    {
        maps::insert_connection(&mut self.connections, uuid, connection);
    }

    /// `uuid` is not connected.
    pub(crate) fn drop_connection(&mut self, uuid: u128)
        ensures
            final(self)@ == (ServerView {
                connections: old(self)@.connections.remove(uuid),
                ..old(self)@
            }),
    {
        maps::remove_connection(&mut self.connections, uuid);
    }

    /// `uuid`'s connection, if there is one, is in the lobby `lobby_id`.
    pub(crate) fn place(&mut self, uuid: u128, lobby_id: Option<u64>)
        ensures
            final(self)@ == old(self)@.placed(uuid, lobby_id),
    {
        if let Some(mut connection) = self.connection(uuid) {
            connection.lobby_id = lobby_id;
            self.put_connection(uuid, connection);
        }
    }

    /// Queue `message` for `player_uuid`, if it is connected.
    pub fn send_to(&mut self, player_uuid: u128, message: ServerMessage)
        ensures
            final(self)@ == old(self)@.queued(player_uuid, message@),
    {
        if self.connection(player_uuid).is_some() {
            self.outbox.push(Outgoing { to: player_uuid, message });
            assert(self@.outbox =~= old(self)@.queued(player_uuid, message@).outbox);
        }
    }

    /// Queue `message` for every one of `members` that is connected, `except` one.
    pub fn send_to_all_except(&mut self, members: &Vec<u128>, except: u128, message: ServerMessage)
        ensures
            final(self)@ == old(self)@.queued_all(without(members@, except), message@),
    {
        let mut i: usize = 0;
        while i < members.len()
            invariant
                i <= members.len(),
                self@ == old(self)@.queued_all(without(members@.take(i as int), except), message@),
            decreases members.len() - i,
        {
            proof {
                reveal(Seq::filter);
                assert(members@.take(i + 1).drop_last() =~= members@.take(i as int));
            }
            if members[i] != except {
                self.send_to(members[i], message.clone());
                assert(without(members@.take(i + 1), except).drop_last() =~= without(
                    members@.take(i as int),
                    except,
                ));
            }
            i += 1;
        }
        assert(members@.take(i as int) =~= members@);
    }

    /// Queue `message` for every one of `recipients` that is connected.
    pub(crate) fn send_to_all(&mut self, recipients: &Vec<u128>, message: ServerMessage)
        ensures
            final(self)@ == old(self)@.queued_all(recipients@, message@),
    {
        let mut i: usize = 0;
        while i < recipients.len()
            invariant
                i <= recipients.len(),
                self@ == old(self)@.queued_all(recipients@.take(i as int), message@),
            decreases recipients.len() - i,
        {
            assert(recipients@.take(i + 1).drop_last() =~= recipients@.take(i as int));
            self.send_to(recipients[i], message.clone());
            i += 1;
        }
        assert(recipients@.take(i as int) =~= recipients@);
    }

    /// Take the queued messages, oldest first, leaving none.
    pub fn take_outbox(&mut self) -> (queue: Vec<Outgoing>)
        ensures
            outgoing_views(queue@) == old(self)@.outbox,
            final(self)@ == (ServerView {
                outbox: Seq::<OutgoingView>::empty(),
                ..old(self)@
            }),
    {
        let mut queue: Vec<Outgoing> = Vec::new();
        std::mem::swap(&mut queue, &mut self.outbox);
        assert(self@.outbox =~= Seq::<OutgoingView>::empty());
        queue
    }
}


} // verus!
