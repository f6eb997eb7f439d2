//! One client's connection: what each frame it sends does, and what happens when it goes.
//!
//! Whoever owns the socket reads a frame, gives it to [`Session::on_frame`], sends the reply if
//! there is one, hands out what the server queued, and reads on until it is told to stop.

use vstd::prelude::*;

use super::limiter::{RateLimiter, Verdict};
use super::lobby;
use super::lobby::{refusal, Departure};
use super::state::{ConnectionHandle, ConnectionView, LobbyView, ServerState, ServerView};
use crate::protocol::{ClientMessage, ServerMessage, ServerMessageView};

verus! {

/// What arrived on the socket.
pub enum Frame {
    /// A binary frame, decoded if it could be.
    Binary(Option<ClientMessage>),
    /// The client closes the socket.
    Close,
    /// Anything else the socket carries.
    Other,
}

/// What the owner of the socket does next.
pub enum Step {
    /// Read on, after sending this back.
    Continue(Option<ServerMessage>),
    /// Stop reading.
    Stop,
}

/// One client's connection, from the moment its socket opens.
pub struct Session {
    /// Who the client is, once it has authenticated.
    pub player_uuid: Option<u128>,
    pub limiter: RateLimiter,
}

/// Whether a number carries the marks of a randomly drawn UUID: version 4, and the standard
/// variant.
pub open spec fn is_random_uuid(uuid: u128) -> bool {
    uuid & 0xF000_C000_0000_0000_0000 == 0x4000_8000_0000_0000_0000
}

/// `uuid::Uuid::new_v4` as a number: any number that carries version 4 and the standard variant,
/// from the system's randomness.
#[verifier::external_body]
fn new_uuid() -> (uuid: u128)
    ensures
        is_random_uuid(uuid),
{
    uuid::Uuid::new_v4().as_u128()
}

/// The answer to a client that sends too much.
pub open spec fn rate_limited() -> Option<ServerMessageView> {
    Some(ServerMessageView::LobbyError { reason: "rate limited"@ })
}

/// The answer to a client that has not said who it is.
pub open spec fn not_authenticated() -> Option<ServerMessageView> {
    Some(ServerMessageView::LobbyError { reason: "Not authenticated"@ })
}

/// The view of a reply, if there is one.
pub open spec fn reply_view(reply: Option<ServerMessage>) -> Option<ServerMessageView> {
    match reply {
        Some(message) => Some(message@),
        None => None,
    }
}

/// The server once a client that goes by `display_name` is connected as `uuid`.
pub open spec fn authenticated(state: ServerView, uuid: u128, display_name: Seq<char>) -> ServerView {
    ServerView {
        connections: state.connections.insert(
            uuid,
            ConnectionView { display_name, lobby_id: None, capabilities: 0 },
        ),
        ..state
    }
}

/// The server once `uuid` goes by `display_name`, in the listing too if it hosts a lobby.
pub open spec fn renamed(state: ServerView, uuid: u128, display_name: Seq<char>) -> ServerView {
    if state.connections.dom().contains(uuid) {
        let connections = state.connections.insert(
            uuid,
            ConnectionView { display_name, ..state.connections[uuid] },
        );
        match state.connections[uuid].lobby_id {
            Some(id) => if state.lobbies.dom().contains(id) && state.lobbies[id].host_uuid
                == uuid {
                ServerView {
                    connections,
                    lobbies: state.lobbies.insert(
                        id,
                        LobbyView { host_name: display_name, ..state.lobbies[id] },
                    ),
                    ..state
                }
            } else {
                ServerView { connections, ..state }
            },
            None => ServerView { connections, ..state },
        }
    } else {
        state
    }
}

/// The server once `uuid` has said which capabilities it has.
pub open spec fn declared(state: ServerView, uuid: u128, capabilities: u64) -> ServerView {
    if state.connections.dom().contains(uuid) {
        ServerView {
            connections: state.connections.insert(
                uuid,
                ConnectionView { capabilities, ..state.connections[uuid] },
            ),
            ..state
        }
    } else {
        state
    }
}

/// Whether a signal from `from` to `to` is one this server carries.
///
/// Both must be in the same lobby, and one of them must be its host. Sessions are a star around
/// the host — every member's one connection is to it — so a member has no reason to signal
/// another member.
pub open spec fn relays(state: ServerView, from: u128, to: u128) -> bool {
    &&& from != to
    &&& state.lobby_of(from) is Some
    &&& state.lobby_of(from) == state.lobby_of(to)
    &&& state.lobbies.dom().contains(state.lobby_of(from)->0)
    &&& {
        ||| state.lobbies[state.lobby_of(from)->0].host_uuid == from
        ||| state.lobbies[state.lobby_of(from)->0].host_uuid == to
    }
}

/// The server once the connection of `uuid` has ended: it has left its lobby, and is not
/// connected.
pub open spec fn hung_up(state: ServerView, uuid: u128) -> ServerView {
    let left = lobby::departed(state, uuid, Departure::Leave);
    ServerView { connections: left.connections.remove(uuid), ..left }
}

/// What a refusal, if there is one, makes of a request: it is the reply, and nothing changes.
pub open spec fn refuses(
    refusal: Option<Seq<char>>,
    before: ServerView,
    after: ServerView,
    reply: Option<ServerMessageView>,
) -> bool {
    refusal matches Some(reason) ==> {
        &&& reply == Some(ServerMessageView::LobbyError { reason })
        &&& after == before
    }
}

/// Whether a message asks for a lobby to be created and is not refused it.
pub open spec fn creates(
    session: Session,
    state: ServerView,
    now: u64,
    message: ClientMessage,
) -> bool {
    &&& message is CreateLobby
    &&& session.player_uuid matches Some(uuid)
    &&& session.limiter.lobby_ops.has_token(now)
    &&& lobby::entry_refusal(state, uuid) is None
}

/// Whether a lobby is created for a frame.
pub open spec fn frame_creates(
    session: Session,
    state: ServerView,
    now: u64,
    frame: Frame,
) -> bool {
    &&& session.limiter.verdict(now) == Verdict::Allow
    &&& frame matches Frame::Binary(Some(message))
    &&& creates(
        Session { limiter: session.limiter.frame_charged(now), ..session },
        state,
        now,
        message,
    )
}

/// What a message does: how the server and the session stand `after` it, and what is sent back.
pub open spec fn handled(
    session: Session,
    before: ServerView,
    message: ClientMessage,
    now: u64,
    session_after: Session,
    after: ServerView,
    reply: Option<ServerMessageView>,
) -> bool {
    let charged = Session { limiter: session.limiter.lobby_op_charged(now), ..session };
    match message {
        ClientMessage::Authenticate { display_name } => match session.player_uuid {
            Some(_) => {
                &&& session_after == session
                &&& after == before
                &&& reply == Some(
                    ServerMessageView::LobbyError { reason: "Already authenticated"@ },
                )
            },
            None => {
                &&& session_after.player_uuid matches Some(uuid)
                &&& is_random_uuid(uuid)
                &&& session_after.limiter == session.limiter
                &&& after == authenticated(before, uuid, display_name@)
                &&& reply == Some(ServerMessageView::Welcome { player_uuid: uuid })
            },
        },
        ClientMessage::SetDisplayName { display_name } => {
            &&& session_after == session
            &&& match session.player_uuid {
                Some(uuid) => after == renamed(before, uuid, display_name@) && reply is None,
                None => after == before && reply == not_authenticated(),
            }
        },
        ClientMessage::DeclareCapabilities { capabilities } => {
            &&& session_after == session
            &&& match session.player_uuid {
                Some(uuid) => after == declared(before, uuid, capabilities) && reply is None,
                None => after == before && reply == not_authenticated(),
            }
        },
        ClientMessage::CreateLobby { max_players } => match session.player_uuid {
            Some(uuid) => {
                &&& session_after == charged
                &&& if !session.limiter.lobby_ops.has_token(now) {
                    after == before && reply == rate_limited()
                } else if lobby::entry_refusal(before, uuid) is Some {
                    refuses(lobby::entry_refusal(before, uuid), before, after, reply)
                } else {
                    &&& reply is None
                    &&& exists|lobby_id: u64, code: Seq<char>|
                        {
                            &&& #[trigger] before.id_is_free(lobby_id)
                            &&& #[trigger] before.code_is_free(code)
                            &&& after == lobby::created(before, uuid, max_players, lobby_id, code)
                        }
                }
            },
            None => session_after == session && after == before && reply == not_authenticated(),
        },
        ClientMessage::JoinLobby { lobby_id } => {
            &&& session_after == session
            &&& match session.player_uuid {
                Some(uuid) => if lobby::join_refusal(before, uuid, lobby_id) is Some {
                    refuses(lobby::join_refusal(before, uuid, lobby_id), before, after, reply)
                } else {
                    after == lobby::joined(before, uuid, lobby_id) && reply is None
                },
                None => after == before && reply == not_authenticated(),
            }
        },
        ClientMessage::JoinLobbyByCode { code } => match session.player_uuid {
            Some(uuid) => {
                let upper = lobby::upper_case(code@);
                &&& session_after == charged
                &&& if !session.limiter.lobby_ops.has_token(now) {
                    after == before && reply == rate_limited()
                } else if lobby::code_refusal(before, uuid, upper) is Some {
                    refuses(lobby::code_refusal(before, uuid, upper), before, after, reply)
                } else {
                    after == lobby::joined(before, uuid, before.codes[upper]) && reply is None
                }
            },
            None => session_after == session && after == before && reply == not_authenticated(),
        },
        ClientMessage::LeaveLobby => {
            &&& session_after == session
            &&& reply is None
            &&& match session.player_uuid {
                Some(uuid) => after == lobby::departed(before, uuid, Departure::Leave),
                None => after == before,
            }
        },
        ClientMessage::CloseLobby => {
            &&& session_after == session
            &&& reply is None
            &&& match session.player_uuid {
                Some(uuid) => after == lobby::departed(before, uuid, Departure::Close),
                None => after == before,
            }
        },
        ClientMessage::ListLobbies => {
            &&& session_after == session
            &&& after == before
            &&& if session.player_uuid is None {
                reply == not_authenticated()
            } else {
                reply matches Some(ServerMessageView::LobbyList { lobbies }) && lobby::lists_all(
                    before,
                    lobbies,
                )
            }
        },
        ClientMessage::Signal { receiver_uuid, data } => {
            &&& session_after == session
            &&& reply is None
            &&& match session.player_uuid {
                Some(uuid) => if relays(before, uuid, receiver_uuid) {
                    after == before.queued(
                        receiver_uuid,
                        ServerMessageView::Signal { sender_uuid: uuid, data: data@ },
                    )
                } else {
                    after == before
                },
                None => after == before,
            }
        },
        ClientMessage::KeepAlive => session_after == session && after == before && reply is None,
    }
}

/// What a frame does: how the server and the session stand `after` it, and what is done next.
pub open spec fn framed(
    session: Session,
    before: ServerView,
    now: u64,
    frame: Frame,
    session_after: Session,
    after: ServerView,
    step: Step,
) -> bool {
    let charged = Session { limiter: session.limiter.frame_charged(now), ..session };
    match (session.limiter.verdict(now), frame) {
        (Verdict::Close, _) => {
            &&& step is Stop
            &&& session_after == charged
            &&& after == before
        },
        (Verdict::Refuse, _) => {
            &&& session_after == charged
            &&& after == before
            &&& step matches Step::Continue(reply) && reply_view(reply) == rate_limited()
        },
        (Verdict::Allow, Frame::Close) => {
            &&& step is Stop
            &&& session_after == charged
            &&& after == before
        },
        (Verdict::Allow, Frame::Binary(Some(message))) => {
            &&& step matches Step::Continue(reply)
            &&& handled(charged, before, message, now, session_after, after, reply_view(reply))
        },
        (Verdict::Allow, _) => {
            &&& session_after == charged
            &&& after == before
            &&& step matches Step::Continue(reply) && reply is None
        },
    }
}

/// Whether a signal from `from` to `to` is one this server carries.
///
/// The connection says which lobby; the lobby says who hosts it. Read from the lobby rather than
/// trusting either end's claim.
pub fn relay_allowed(state: &ServerState, from: u128, to: u128) -> (allowed: bool)
    ensures
        allowed == relays(state@, from, to),
{
    if from == to {
        return false;
    }
    match (state.lobby_of(from), state.lobby_of(to)) {
        (Some(from_lobby), Some(to_lobby)) => {
            if from_lobby != to_lobby {
                return false;
            }
            match state.lobby(from_lobby) {
                Some(lobby) => lobby.host_uuid == from || lobby.host_uuid == to,
                None => false,
            }
        },
        _ => false,
    }
}

/// `uuid` goes by `display_name` from here on.
fn rename(state: &mut ServerState, uuid: u128, display_name: String)
    ensures
        final(state)@ == renamed(old(state)@, uuid, display_name@),
{
    if let Some(mut connection) = state.connection(uuid) {
        let hosted = connection.lobby_id;
        connection.display_name = display_name.clone();
        state.put_connection(uuid, connection);
        // The listing keeps its own copy, taken when the lobby was created. Without this the name
        // changes everywhere except the one place it is read from.
        if let Some(lobby_id) = hosted {
            if let Some(mut lobby) = state.lobby(lobby_id) {
                if lobby.host_uuid == uuid {
                    lobby.host_name = display_name;
                    state.put_lobby(lobby_id, lobby);
                }
            }
        }
    }
}

/// `uuid` has these capabilities from here on.
fn declare(state: &mut ServerState, uuid: u128, capabilities: u64)
    ensures
        final(state)@ == declared(old(state)@, uuid, capabilities),
{
    if let Some(mut connection) = state.connection(uuid) {
        connection.capabilities = capabilities;
        state.put_connection(uuid, connection);
    }
}

/// What is sent back for the outcome of a request.
fn reply_to(result: Result<(), ServerMessage>) -> (reply: Option<ServerMessage>)
    ensures
        result is Ok ==> reply is None,
        result matches Err(message) ==> reply_view(reply) == Some(message@),
{
    match result {
        Ok(()) => None,
        Err(message) => Some(message),
    }
}

impl Session {
    /// A connection whose socket opened at `now`, in nanoseconds.
    pub fn new(state: &ServerState, now: u64) -> (session: Self)
        ensures
            session.player_uuid is None,
            session.limiter.soft == super::limiter::full_bucket(
                state@.limits.message_burst,
                state@.limits.messages_per_second,
                1,
                now,
            ),
            session.limiter.hard == super::limiter::full_bucket(
                state@.limits.message_burst,
                state@.limits.messages_per_second,
                super::limiter::CLOSE_AT_MULTIPLE,
                now,
            ),
            session.limiter.lobby_ops == super::limiter::full_bucket(
                state@.limits.lobby_ops_burst,
                state@.limits.lobby_ops_per_second,
                1,
                now,
            ),
    {
        Session { player_uuid: None, limiter: RateLimiter::new(&state.limits(), now) }
    }

    /// The client of this connection is `uuid` and goes by `display_name`.
    pub fn authenticate_as(
        &mut self,
        state: &mut ServerState,
        uuid: u128,
        display_name: String,
    ) -> (welcome: ServerMessage)
        ensures
            *final(self) == (Session { player_uuid: Some(uuid), ..*old(self) }),
            final(state)@ == authenticated(old(state)@, uuid, display_name@),
            welcome@ == (ServerMessageView::Welcome { player_uuid: uuid }),
    {
        self.player_uuid = Some(uuid);
        state.put_connection(
            uuid,
            ConnectionHandle { display_name, lobby_id: None, capabilities: 0 },
        );
        ServerMessage::Welcome { player_uuid: uuid }
    }

    /// Do what a message asks for, and answer it.
    pub fn handle_message(&mut self, state: &mut ServerState, now: u64, message: ClientMessage) -> (reply:
        Option<ServerMessage>)
        requires
            creates(*old(self), old(state)@, now, message) ==> old(state)@.has_room(),
        ensures
            handled(
                *old(self),
                old(state)@,
                message,
                now,
                *final(self),
                final(state)@,
                reply_view(reply),
            ),
    {
        match message {
            ClientMessage::Authenticate { display_name } => {
                if self.player_uuid.is_some() {
                    return Some(refusal("Already authenticated"));
                }
                let uuid = new_uuid();
                Some(self.authenticate_as(state, uuid, display_name))
            },
            ClientMessage::SetDisplayName { display_name } => match self.player_uuid {
                Some(uuid) => {
                    rename(state, uuid, display_name);
                    None
                },
                None => Some(refusal("Not authenticated")),
            },
            ClientMessage::DeclareCapabilities { capabilities } => match self.player_uuid {
                Some(uuid) => {
                    declare(state, uuid, capabilities);
                    None
                },
                None => Some(refusal("Not authenticated")),
            },
            ClientMessage::CreateLobby { max_players } => match self.player_uuid {
                Some(uuid) => {
                    if !self.limiter.lobby_op(now) {
                        return Some(refusal("rate limited"));
                    }
                    reply_to(lobby::create_lobby(state, uuid, max_players))
                },
                None => Some(refusal("Not authenticated")),
            },
            ClientMessage::JoinLobby { lobby_id } => match self.player_uuid {
                Some(uuid) => reply_to(lobby::join_lobby(state, uuid, lobby_id)),
                None => Some(refusal("Not authenticated")),
            },
            ClientMessage::JoinLobbyByCode { code } => match self.player_uuid {
                Some(uuid) => {
                    if !self.limiter.lobby_op(now) {
                        return Some(refusal("rate limited"));
                    }
                    reply_to(lobby::join_lobby_by_code(state, uuid, code.as_str()))
                },
                None => Some(refusal("Not authenticated")),
            },
            ClientMessage::LeaveLobby => {
                if let Some(uuid) = self.player_uuid {
                    lobby::leave_lobby(state, uuid);
                }
                None
            },
            ClientMessage::CloseLobby => {
                if let Some(uuid) = self.player_uuid {
                    lobby::close_lobby(state, uuid);
                }
                None
            },
            ClientMessage::ListLobbies => {
                // Authenticated like everything else. The listing is cheap to serve and not a
                // secret, but an unauthenticated socket that can ask for it is one that can ask
                // for it in a loop.
                if self.player_uuid.is_none() {
                    return Some(refusal("Not authenticated"));
                }
                Some(lobby::list_lobbies(state))
            },
            ClientMessage::Signal { receiver_uuid, data } => {
                if let Some(uuid) = self.player_uuid {
                    if relay_allowed(state, uuid, receiver_uuid) {
                        state.send_to(
                            receiver_uuid,
                            ServerMessage::Signal { sender_uuid: uuid, data },
                        );
                    }
                }
                None
            },
            ClientMessage::KeepAlive => None,
        }
    }

    /// Deal with one frame that arrived at `now`, in nanoseconds.
    ///
    /// Every frame is charged, decodable or not: the cost of reading it has been paid already.
    pub fn on_frame(&mut self, state: &mut ServerState, now: u64, frame: Frame) -> (step: Step)
        requires
            frame_creates(*old(self), old(state)@, now, frame) ==> old(state)@.has_room(),
        ensures
            framed(*old(self), old(state)@, now, frame, *final(self), final(state)@, step),
    {
        match self.limiter.frame(now) {
            Verdict::Allow => {},
            Verdict::Refuse => {
                return Step::Continue(Some(refusal("rate limited")));
            },
            Verdict::Close => {
                return Step::Stop;
            },
        }
        match frame {
            Frame::Close => Step::Stop,
            Frame::Binary(Some(message)) => Step::Continue(
                self.handle_message(state, now, message),
            ),
            _ => Step::Continue(None),
        }
    }

    /// Whether a lobby is created for a frame that arrives at `now`.
    pub fn frame_asks_for_a_lobby(&self, state: &ServerState, now: u64, frame: &Frame) -> (asks:
        bool)
        ensures
            asks == frame_creates(*self, state@, now, *frame),
    {
        let mut limiter: RateLimiter = self.limiter;
        match limiter.frame(now) {
            Verdict::Allow => {},
            _ => {
                return false;
            },
        }
        match (frame, self.player_uuid) {
            (Frame::Binary(Some(ClientMessage::CreateLobby { .. })), Some(uuid)) => {
                limiter.lobby_op(now) && lobby::refuse_entry(state, uuid).is_none()
            },
            _ => false,
        }
    }

    /// Deal with one frame that arrived at `now`, in nanoseconds, on a server that may be full.
    ///
    /// A lobby that is asked for when none fits is refused, and charged like any other.
    pub fn on_frame_with_room(&mut self, state: &mut ServerState, now: u64, frame: Frame) -> (step:
        Step)
        ensures
            if frame_creates(*old(self), old(state)@, now, frame) && !old(state)@.has_room() {
                &&& *final(self) == (Session {
                    limiter: old(self).limiter.frame_charged(now).lobby_op_charged(now),
                    ..*old(self)
                })
                &&& final(state)@ == old(state)@
                &&& step matches Step::Continue(Some(reply))
                &&& reply@ == ServerMessageView::LobbyError { reason: "Server is full"@ }
            } else {
                framed(*old(self), old(state)@, now, frame, *final(self), final(state)@, step)
            },
    {
        if self.frame_asks_for_a_lobby(state, now, &frame) && !state.has_room() {
            self.limiter.frame(now);
            self.limiter.lobby_op(now);
            return Step::Continue(Some(refusal("Server is full")));
        }
        self.on_frame(state, now, frame)
    }

    /// The socket is gone, or its owner stops reading from it: the player leaves its lobby and is
    /// not connected any more.
    pub fn hang_up(self, state: &mut ServerState)
        ensures
            final(state)@ == match self.player_uuid {
                Some(uuid) => hung_up(old(state)@, uuid),
                None => old(state)@,
            },
    {
        if let Some(uuid) = self.player_uuid {
            lobby::leave_lobby(state, uuid);
            state.drop_connection(uuid);
        }
    }
}

} // verus!
