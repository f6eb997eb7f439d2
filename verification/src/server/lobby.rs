//! Creating, joining, leaving and closing lobbies.

use vstd::prelude::*;

use super::state;
use super::state::{LobbyState, LobbyView, ServerState, ServerView, NANOS_PER_SECOND};
use crate::protocol::{
    copy_ids, LobbyInfo, LobbyInfoView, ServerMessage, ServerMessageView,
    CAPABILITY_HOST_MIGRATION,
};

verus! {

/// The most players a lobby may be created for, whatever the client asked.
///
/// `max_players` arrives from the client; nothing bounds a mesh of peers except this. Sixty-four
/// is well above anything a full-mesh session can carry.
pub const MAX_PLAYERS: u32 = 64;

/// The size a lobby is created with, given what the client asked for.
pub open spec fn clamped(requested: u32) -> u32 {
    if requested == 0 || requested > MAX_PLAYERS {
        MAX_PLAYERS
    } else {
        requested
    }
}

/// The size a lobby is actually created with, given what the client asked for.
///
/// `0` means "as many as the server allows", which is also what anything above the cap gets.
pub fn clamp_max_players(requested: u32) -> (size: u32)
    ensures
        size == clamped(requested),
        1 <= size <= MAX_PLAYERS,
        1 <= requested <= MAX_PLAYERS ==> size == requested,
{
    if requested == 0 || requested > MAX_PLAYERS {
        MAX_PLAYERS
    } else {
        requested
    }
}

/// What refuses a request, and why.
pub fn refusal(reason: &str) -> (message: ServerMessage)
    ensures
        message@ == (ServerMessageView::LobbyError { reason: reason@ }),
{
    ServerMessage::LobbyError { reason: reason.to_owned() }
}

/// How long the server waits on a silent connection, in whole seconds, as far as a `u32` counts.
pub open spec fn idle_timeout_secs(state: ServerView) -> u32 {
    let seconds = state.limits.idle_timeout_nanos / NANOS_PER_SECOND;
    if seconds > u32::MAX {
        u32::MAX
    } else {
        seconds as u32
    }
}

/// What tells a client that the lobby `lobby_id` survives its host.
pub open spec fn migratable_message(state: ServerView, lobby_id: u64) -> ServerMessageView {
    ServerMessageView::LobbyMigratable { lobby_id, idle_timeout_secs: idle_timeout_secs(state) }
}

fn migratable(state: &ServerState, lobby_id: u64) -> (message: ServerMessage)
    ensures
        message@ == migratable_message(state@, lobby_id),
{
    let seconds: u128 = state.limits().idle_timeout_nanos / NANOS_PER_SECOND;
    let idle_timeout_secs: u32 = if seconds > u32::MAX as u128 {
        u32::MAX
    } else {
        seconds as u32
    };
    ServerMessage::LobbyMigratable { lobby_id, idle_timeout_secs }
}

/// Why `player_uuid` may not enter a lobby at all, if it may not.
pub open spec fn entry_refusal(state: ServerView, player_uuid: u128) -> Option<Seq<char>> {
    if !state.connections.dom().contains(player_uuid) {
        Some("Not authenticated"@)
    } else if state.connections[player_uuid].lobby_id is Some {
        Some("Already in a lobby"@)
    } else {
        None
    }
}

/// Why `player_uuid` may not enter a lobby at all, if it may not.
pub fn refuse_entry(state: &ServerState, player_uuid: u128) -> (reason: Option<&'static str>)
    ensures
        match entry_refusal(state@, player_uuid) {
            Some(due) => reason matches Some(reason) && reason@ == due,
            None => reason is None,
        },
{
    match state.connection(player_uuid) {
        None => Some("Not authenticated"),
        Some(connection) => if connection.lobby_id.is_some() {
            Some("Already in a lobby")
        } else {
            None
        },
    }
}

/// What a refused request is answered, and that it changes nothing.
pub open spec fn is_refused(
    before: ServerView,
    after: ServerView,
    result: Result<(), ServerMessage>,
    reason: Seq<char>,
) -> bool {
    &&& result is Err
    &&& result->Err_0@ == ServerMessageView::LobbyError { reason }
    &&& after == before
}

/// The lobby that `host_uuid` creates.
pub open spec fn new_lobby(
    state: ServerView,
    host_uuid: u128,
    max_players: u32,
    lobby_id: u64,
    code: Seq<char>,
) -> LobbyView {
    LobbyView {
        lobby_id,
        code,
        host_uuid,
        host_name: state.connections[host_uuid].display_name,
        members: seq![host_uuid],
        max_players: clamped(max_players),
        host_migration: state.connections[host_uuid].declares(CAPABILITY_HOST_MIGRATION),
    }
}

/// The server once `host_uuid` has created the lobby `lobby_id`, found by `code`, and has been
/// told so.
pub open spec fn created(
    state: ServerView,
    host_uuid: u128,
    max_players: u32,
    lobby_id: u64,
    code: Seq<char>,
) -> ServerView {
    let lobby = new_lobby(state, host_uuid, max_players, lobby_id, code);
    let told = ServerView {
        lobbies: state.lobbies.insert(lobby_id, lobby),
        codes: state.codes.insert(code, lobby_id),
        ..state
    }.placed(host_uuid, Some(lobby_id)).queued(
        host_uuid,
        ServerMessageView::LobbyCreated { lobby_id, code },
    );
    if lobby.host_migration {
        told.queued(host_uuid, migratable_message(state, lobby_id))
    } else {
        told
    }
}

/// Create a lobby hosted by `host_uuid`.
///
/// `Ok` once the host has been sent everything it is owed; `Err` is the refusal to send back. The
/// id and the code are drawn among those that no lobby uses.
pub fn create_lobby(state: &mut ServerState, host_uuid: u128, max_players: u32) -> (result: Result<
    (),
    ServerMessage,
>)
    requires
        entry_refusal(old(state)@, host_uuid) is None ==> old(state)@.has_room(),
    ensures
        match entry_refusal(old(state)@, host_uuid) {
            Some(reason) => is_refused(old(state)@, final(state)@, result, reason),
            None => {
                &&& result is Ok
                &&& exists|lobby_id: u64, code: Seq<char>|
                    {
                        &&& #[trigger] old(state)@.id_is_free(lobby_id)
                        &&& #[trigger] old(state)@.code_is_free(code)
                        &&& final(state)@ == created(
                            old(state)@,
                            host_uuid,
                            max_players,
                            lobby_id,
                            code,
                        )
                    }
            },
        },
{
    if let Some(reason) = refuse_entry(state, host_uuid) {
        return Err(refusal(reason));
    }
    let code = state.generate_lobby_code();
    let lobby_id = state.next_lobby_id();
    create_lobby_as(state, host_uuid, max_players, lobby_id, code)
}

/// Create a lobby hosted by `host_uuid`, under this id and this code.
pub fn create_lobby_as(
    state: &mut ServerState,
    host_uuid: u128,
    max_players: u32,
    lobby_id: u64,
    code: String,
) -> (result: Result<(), ServerMessage>)
    requires
        entry_refusal(old(state)@, host_uuid) is None ==> old(state)@.id_is_free(lobby_id)
            && old(state)@.code_is_free(code@),
    ensures
        match entry_refusal(old(state)@, host_uuid) {
            Some(reason) => is_refused(old(state)@, final(state)@, result, reason),
            None => {
                &&& result is Ok
                &&& final(state)@ == created(
                    old(state)@,
                    host_uuid,
                    max_players,
                    lobby_id,
                    code@,
                )
            },
        },
{
    let connection = match state.connection(host_uuid) {
        Some(connection) => connection,
        None => {
            return Err(refusal("Not authenticated"));
        },
    };
    if connection.lobby_id.is_some() {
        return Err(refusal("Already in a lobby"));
    }
    let host_migration = connection.declares(CAPABILITY_HOST_MIGRATION);
    let mut members: Vec<u128> = Vec::new();
    members.push(host_uuid);
    let lobby = LobbyState {
        lobby_id,
        code: code.clone(),
        host_uuid,
        host_name: connection.display_name,
        members,
        max_players: clamp_max_players(max_players),
        host_migration,
    };
    assert(lobby@.members =~= seq![host_uuid]);
    state.put_lobby(lobby_id, lobby);
    state.put_code(code.clone(), lobby_id);
    state.place(host_uuid, Some(lobby_id));
    state.send_to(host_uuid, ServerMessage::LobbyCreated { lobby_id, code });
    if host_migration {
        let message = migratable(state, lobby_id);
        state.send_to(host_uuid, message);
    }
    Ok(())
}

/// Why `player_uuid` may not join the lobby `lobby_id`, if it may not.
pub open spec fn join_refusal(state: ServerView, player_uuid: u128, lobby_id: u64) -> Option<
    Seq<char>,
> {
    if entry_refusal(state, player_uuid) is Some {
        entry_refusal(state, player_uuid)
    } else if !state.lobbies.dom().contains(lobby_id) {
        Some("Lobby not found"@)
    } else if state.lobbies[lobby_id].members.len() as u32 >= state.lobbies[lobby_id].max_players {
        Some("Lobby is full"@)
    } else {
        None
    }
}

/// The server once `player_uuid` has joined the lobby `lobby_id`, last of its members, and
/// everyone in it has been told.
pub open spec fn joined(state: ServerView, player_uuid: u128, lobby_id: u64) -> ServerView {
    let lobby = state.lobbies[lobby_id];
    let members = lobby.members.push(player_uuid);
    let told = ServerView {
        lobbies: state.lobbies.insert(lobby_id, LobbyView { members, ..lobby }),
        ..state
    }.placed(player_uuid, Some(lobby_id)).queued_all(
        state::without(members, player_uuid),
        ServerMessageView::PlayerJoined { player_uuid },
    ).queued(
        player_uuid,
        ServerMessageView::LobbyJoined {
            lobby_id,
            host_uuid: lobby.host_uuid,
            existing_members: lobby.members,
        },
    );
    if lobby.host_migration && state.connections[player_uuid].declares(CAPABILITY_HOST_MIGRATION) {
        told.queued(player_uuid, migratable_message(state, lobby_id))
    } else {
        told
    }
}

/// Queueing changes nothing but the queue.
pub(crate) proof fn lemma_queued_all_keeps(
    state: ServerView,
    recipients: Seq<u128>,
    message: ServerMessageView,
)
    ensures
        state.queued_all(recipients, message) == (ServerView {
            outbox: state.queued_all(recipients, message).outbox,
            ..state
        }),
    decreases recipients.len(),
{
    if recipients.len() > 0 {
        lemma_queued_all_keeps(state, recipients.drop_last(), message);
    }
}

/// Add `player_uuid` to the lobby `lobby_id`.
///
/// `Ok` once the joiner and the members have been sent everything they are owed; `Err` is the
/// refusal to send back. A joiner that did not declare host migration could not decode the message
/// about it, and has nothing to do with it: should the host leave, it is disconnected.
pub fn join_lobby(state: &mut ServerState, player_uuid: u128, lobby_id: u64) -> (result: Result<
    (),
    ServerMessage,
>)
    ensures
        match join_refusal(old(state)@, player_uuid, lobby_id) {
            Some(reason) => is_refused(old(state)@, final(state)@, result, reason),
            None => {
                &&& result is Ok
                &&& final(state)@ == joined(old(state)@, player_uuid, lobby_id)
            },
        },
{
    let connection = match state.connection(player_uuid) {
        Some(connection) => connection,
        None => {
            return Err(refusal("Not authenticated"));
        },
    };
    if connection.lobby_id.is_some() {
        return Err(refusal("Already in a lobby"));
    }
    let joiner_migrates = connection.declares(CAPABILITY_HOST_MIGRATION);
    let mut lobby = match state.lobby(lobby_id) {
        Some(lobby) => lobby,
        None => {
            return Err(refusal("Lobby not found"));
        },
    };
    if lobby.members.len() as u32 >= lobby.max_players {
        return Err(refusal("Lobby is full"));
    }
    let existing_members = copy_ids(&lobby.members);
    let host_uuid = lobby.host_uuid;
    let host_migration = lobby.host_migration;
    lobby.members.push(player_uuid);
    let members = copy_ids(&lobby.members);
    state.put_lobby(lobby_id, lobby);
    state.place(player_uuid, Some(lobby_id));
    proof {
        lemma_queued_all_keeps(
            state@,
            state::without(members@, player_uuid),
            ServerMessageView::PlayerJoined { player_uuid },
        );
    }
    state.send_to_all_except(&members, player_uuid, ServerMessage::PlayerJoined { player_uuid });
    state.send_to(
        player_uuid,
        ServerMessage::LobbyJoined { lobby_id, host_uuid, existing_members },
    );
    if host_migration && joiner_migrates {
        let message = migratable(state, lobby_id);
        state.send_to(player_uuid, message);
    }
    Ok(())
}

/// `text` in upper case, as the standard library writes it.
pub uninterp spec fn upper_case(text: Seq<char>) -> Seq<char>;

/// `str::to_uppercase`: the text in upper case.
#[verifier::external_body]
fn to_upper_case(text: &str) -> (upper: String)
    ensures
        upper@ == upper_case(text@),
{
    text.to_uppercase()
}

/// Add `player_uuid` to the lobby that goes by `code`, typed in either case.
pub fn join_lobby_by_code(state: &mut ServerState, player_uuid: u128, code: &str) -> (result:
    Result<(), ServerMessage>)
    ensures
        match code_refusal(old(state)@, player_uuid, upper_case(code@)) {
            Some(reason) => is_refused(old(state)@, final(state)@, result, reason),
            None => {
                &&& result is Ok
                &&& final(state)@ == joined(
                    old(state)@,
                    player_uuid,
                    old(state)@.codes[upper_case(code@)],
                )
            },
        },
{
    let code = to_upper_case(code);
    join_lobby_by_exact_code(state, player_uuid, &code)
}

/// Why `player_uuid` may not join the lobby that goes by `code`, if it may not.
pub open spec fn code_refusal(state: ServerView, player_uuid: u128, code: Seq<char>) -> Option<
    Seq<char>,
> {
    if !state.codes.dom().contains(code) {
        Some("Lobby not found"@)
    } else {
        join_refusal(state, player_uuid, state.codes[code])
    }
}

/// Add `player_uuid` to the lobby that goes by exactly `code`.
pub fn join_lobby_by_exact_code(state: &mut ServerState, player_uuid: u128, code: &String) -> (result:
    Result<(), ServerMessage>)
    ensures
        match code_refusal(old(state)@, player_uuid, code@) {
            Some(reason) => is_refused(old(state)@, final(state)@, result, reason),
            None => {
                &&& result is Ok
                &&& final(state)@ == joined(old(state)@, player_uuid, old(state)@.codes[code@])
            },
        },
{
    match state.lobby_by_code(code) {
        Some(lobby_id) => join_lobby(state, player_uuid, lobby_id),
        None => Err(refusal("Lobby not found")),
    }
}

/// How a player goes.
#[derive(Clone, Copy, PartialEq, Eq, Structural)]
pub enum Departure {
    /// It leaves: on request, or because its connection ended.
    Leave,
    /// It ends the lobby it hosts for everyone.
    Close,
}

/// Who can be told that a lobby has a new host.
pub open spec fn can_follow(state: ServerView) -> spec_fn(u128) -> bool {
    |uuid: u128| state.declares(uuid, CAPABILITY_HOST_MIGRATION)
}

/// Who cannot be told that a lobby has a new host.
pub open spec fn cannot_follow(state: ServerView) -> spec_fn(u128) -> bool {
    |uuid: u128| !state.declares(uuid, CAPABILITY_HOST_MIGRATION)
}

/// The members that can be told who the new host is, in the order they joined.
pub open spec fn followers(state: ServerView, members: Seq<u128>) -> Seq<u128> {
    members.filter(can_follow(state))
}

/// The members that cannot be told who the new host is.
pub open spec fn stranded(state: ServerView, members: Seq<u128>) -> Seq<u128> {
    members.filter(cannot_follow(state))
}

/// The server once each of `members` has been told why it is in no lobby any more.
pub open spec fn disconnected(state: ServerView, members: Seq<u128>, reason: Seq<char>) -> ServerView
    decreases members.len(),
{
    if members.len() == 0 {
        state
    } else {
        disconnected(state, members.drop_last(), reason).queued(
            members.last(),
            ServerMessageView::Disconnected { reason },
        ).placed(members.last(), None)
    }
}

/// The server once `leaver` has been told that each of `peers` is gone for it.
pub open spec fn parted(state: ServerView, leaver: u128, peers: Seq<u128>) -> ServerView
    decreases peers.len(),
{
    if peers.len() == 0 {
        state
    } else {
        parted(state, leaver, peers.drop_last()).queued(
            leaver,
            ServerMessageView::PlayerLeft { player_uuid: peers.last() },
        )
    }
}

/// Why a lobby ended for the members it had.
pub open spec fn end_reason(departure: Departure) -> Seq<char> {
    match departure {
        Departure::Leave => "Host left the lobby"@,
        Departure::Close => "Host closed the lobby"@,
    }
}

/// The lobby once its earliest follower hosts it.
pub open spec fn inherited(state: ServerView, lobby: LobbyView, members: Seq<u128>) -> LobbyView {
    let new_host = followers(state, members)[0];
    LobbyView {
        members: followers(state, members),
        host_uuid: new_host,
        host_name: state.connections[new_host].display_name,
        ..lobby
    }
}

/// The server once the earliest of the followers among `members` hosts the lobby that
/// `previous_host` left, everyone else who can follow has been told, and who cannot has been
/// disconnected.
pub open spec fn handed_over(
    state: ServerView,
    lobby_id: u64,
    previous_host: u128,
    members: Seq<u128>,
) -> ServerView {
    let lobby = inherited(state, state.lobbies[lobby_id], members);
    let released = disconnected(state, stranded(state, members), end_reason(Departure::Leave));
    ServerView { lobbies: state.lobbies.insert(lobby_id, lobby), ..released }.queued_all(
        lobby.members,
        ServerMessageView::HostChanged {
            lobby_id: lobby.lobby_id,
            previous_host,
            new_host: lobby.host_uuid,
            code: lobby.code,
            members: lobby.members,
        },
    )
}

/// The server once the lobby `lobby_id` has ended for the members it had.
pub open spec fn ended(
    state: ServerView,
    lobby_id: u64,
    members: Seq<u128>,
    departure: Departure,
) -> ServerView {
    disconnected(
        ServerView {
            lobbies: state.lobbies.remove(lobby_id),
            codes: state.codes.remove(state.lobbies[lobby_id].code),
            ..state
        },
        members,
        end_reason(departure),
    )
}

/// Whether the departure of its host hands the lobby on rather than ending it.
pub open spec fn hands_on(
    state: ServerView,
    lobby: LobbyView,
    members: Seq<u128>,
    departure: Departure,
) -> bool {
    departure == Departure::Leave && lobby.host_migration && followers(state, members).len() > 0
}

/// The server once `player_uuid` has gone.
///
/// Nothing happens to a player in no lobby, nor on a close from anyone but the host. A player
/// whose lobby is already gone is one that has left it. Otherwise the rest of the lobby is told,
/// or handed on, or ends, and the player is told that everyone who was in it is gone for it.
pub open spec fn departed(state: ServerView, player_uuid: u128, departure: Departure) -> ServerView {
    match state.lobby_of(player_uuid) {
        None => state,
        Some(lobby_id) => {
            if !state.lobbies.dom().contains(lobby_id) {
                state.placed(player_uuid, None)
            } else {
                let lobby = state.lobbies[lobby_id];
                if departure == Departure::Close && lobby.host_uuid != player_uuid {
                    state
                } else {
                    let rest = state::without(lobby.members, player_uuid);
                    let gone = state.placed(player_uuid, None);
                    let settled = if lobby.host_uuid != player_uuid {
                        ServerView {
                            lobbies: gone.lobbies.insert(
                                lobby_id,
                                LobbyView { members: rest, ..lobby },
                            ),
                            ..gone
                        }.queued_all(rest, ServerMessageView::PlayerLeft { player_uuid })
                    } else if hands_on(gone, lobby, rest, departure) {
                        handed_over(gone, lobby_id, player_uuid, rest)
                    } else {
                        ended(gone, lobby_id, rest, departure)
                    };
                    parted(settled, player_uuid, rest)
                }
            }
        },
    }
}

/// Removing someone from lobbies changes nothing but the queue and the connections.
pub(crate) proof fn lemma_disconnected_keeps(state: ServerView, members: Seq<u128>, reason: Seq<char>)
    ensures
        disconnected(state, members, reason).lobbies == state.lobbies,
        disconnected(state, members, reason).codes == state.codes,
        disconnected(state, members, reason).limits == state.limits,
        disconnected(state, members, reason).connections.dom() == state.connections.dom(),
        forall|uuid: u128| #[trigger]
            state.connections.dom().contains(uuid) ==> {
                let after = disconnected(state, members, reason).connections[uuid];
                let before = state.connections[uuid];
                &&& after.display_name == before.display_name
                &&& after.capabilities == before.capabilities
                &&& after.lobby_id == if members.contains(uuid) {
                    None
                } else {
                    before.lobby_id
                }
            },
    decreases members.len(),
{
    if members.len() > 0 {
        lemma_disconnected_keeps(state, members.drop_last(), reason);
        let inner = disconnected(state, members.drop_last(), reason);
        assert(disconnected(state, members, reason).connections.dom()
            =~= state.connections.dom());
        assert forall|uuid: u128|
            members.contains(uuid) == (members.drop_last().contains(uuid) || uuid
                == members.last()) by {
            if members.contains(uuid) {
                let i = choose|i: int| 0 <= i < members.len() && members[i] == uuid;
                if i < members.len() - 1 {
                    assert(members.drop_last()[i] == uuid);
                }
            }
            if members.drop_last().contains(uuid) {
                let i = choose|i: int|
                    0 <= i < members.drop_last().len() && members.drop_last()[i] == uuid;
                assert(members[i] == uuid);
            }
            assert(members[members.len() - 1] == members.last());
        }
    }
}

/// `members`, in order, without `gone`.
fn all_but(members: &Vec<u128>, gone: u128) -> (rest: Vec<u128>)
    ensures
        rest@ == state::without(members@, gone),
{
    let mut rest: Vec<u128> = Vec::new();
    let mut i: usize = 0;
    while i < members.len()
        invariant
            i <= members.len(),
            rest@ == state::without(members@.take(i as int), gone),
        decreases members.len() - i,
    {
        proof {
            reveal(Seq::filter);
            assert(members@.take(i + 1).drop_last() =~= members@.take(i as int));
        }
        if members[i] != gone {
            rest.push(members[i]);
        }
        i += 1;
    }
    assert(members@.take(i as int) =~= members@);
    rest
}

/// `members`, in order: those that can be told who the new host is, and those that cannot.
fn part_by_capability(state: &ServerState, members: &Vec<u128>) -> (parts: (Vec<u128>, Vec<u128>))
    ensures
        parts.0@ == followers(state@, members@),
        parts.1@ == stranded(state@, members@),
{
    let mut following: Vec<u128> = Vec::new();
    let mut left_behind: Vec<u128> = Vec::new();
    let mut i: usize = 0;
    while i < members.len()
        invariant
            i <= members.len(),
            following@ == followers(state@, members@.take(i as int)),
            left_behind@ == stranded(state@, members@.take(i as int)),
        decreases members.len() - i,
    {
        proof {
            reveal(Seq::filter);
            assert(members@.take(i + 1).drop_last() =~= members@.take(i as int));
        }
        if state.declares(members[i], CAPABILITY_HOST_MIGRATION) {
            following.push(members[i]);
        } else {
            left_behind.push(members[i]);
        }
        i += 1;
    }
    assert(members@.take(i as int) =~= members@);
    (following, left_behind)
}

/// Remove `members` from whatever lobby they were in, telling each why.
fn disconnect(state: &mut ServerState, members: &Vec<u128>, reason: &str)
    ensures
        final(state)@ == disconnected(old(state)@, members@, reason@),
{
    let mut i: usize = 0;
    while i < members.len()
        invariant
            i <= members.len(),
            state@ == disconnected(old(state)@, members@.take(i as int), reason@),
        decreases members.len() - i,
    {
        assert(members@.take(i + 1).drop_last() =~= members@.take(i as int));
        state.send_to(members[i], ServerMessage::Disconnected { reason: reason.to_owned() });
        state.place(members[i], None);
        i += 1;
    }
    assert(members@.take(i as int) =~= members@);
}

/// Tell `leaver` that each of `peers` is gone for it.
fn part(state: &mut ServerState, leaver: u128, peers: &Vec<u128>)
    ensures
        final(state)@ == parted(old(state)@, leaver, peers@),
{
    let mut i: usize = 0;
    while i < peers.len()
        invariant
            i <= peers.len(),
            state@ == parted(old(state)@, leaver, peers@.take(i as int)),
        decreases peers.len() - i,
    {
        assert(peers@.take(i + 1).drop_last() =~= peers@.take(i as int));
        state.send_to(leaver, ServerMessage::PlayerLeft { player_uuid: peers[i] });
        i += 1;
    }
    assert(peers@.take(i as int) =~= peers@);
}

/// The earliest follower takes over the lobby `previous_host` left.
///
/// A member that never declared the capability cannot be told who the host became, and could not
/// follow if it were: it is removed with `Disconnected`, and is never the successor.
fn hand_over(
    state: &mut ServerState,
    lobby_id: u64,
    lobby: LobbyState,
    previous_host: u128,
    members: &Vec<u128>,
    following: Vec<u128>,
    left_behind: Vec<u128>,
)
    requires
        old(state)@.lobbies.dom().contains(lobby_id),
        lobby@ == old(state)@.lobbies[lobby_id],
        following@ == followers(old(state)@, members@),
        left_behind@ == stranded(old(state)@, members@),
        following@.len() > 0,
    ensures
        final(state)@ == handed_over(old(state)@, lobby_id, previous_host, members@),
{
    let mut lobby = lobby;
    let new_host = following[0];
    proof {
        broadcast use vstd::seq_lib::group_filter_ensures;

        lemma_disconnected_keeps(old(state)@, left_behind@, end_reason(Departure::Leave));
    }
    disconnect(state, &left_behind, "Host left the lobby");
    let recipients = copy_ids(&following);
    lobby.members = following;
    lobby.host_uuid = new_host;
    if let Some(connection) = state.connection(new_host) {
        lobby.host_name = connection.display_name;
    }
    assert(lobby@ == inherited(old(state)@, old(state)@.lobbies[lobby_id], members@));
    let change = ServerMessage::HostChanged {
        lobby_id: lobby.lobby_id,
        previous_host,
        new_host,
        code: lobby.code.clone(),
        members: copy_ids(&lobby.members),
    };
    state.put_lobby(lobby_id, lobby);
    state.send_to_all(&recipients, change);
}

/// `player_uuid` goes: see [`departed`].
pub fn depart(state: &mut ServerState, player_uuid: u128, departure: Departure)
    ensures
        final(state)@ == departed(old(state)@, player_uuid, departure),
{
    let lobby_id = match state.lobby_of(player_uuid) {
        Some(lobby_id) => lobby_id,
        None => {
            return;
        },
    };
    let mut lobby = match state.lobby(lobby_id) {
        Some(lobby) => lobby,
        None => {
            // A lobby that is already gone is one this connection has left; saying so keeps it
            // from being refused "Already in a lobby" for good.
            state.place(player_uuid, None);
            return;
        },
    };
    let is_host = lobby.host_uuid == player_uuid;
    if departure == Departure::Close && !is_host {
        return;
    }
    state.place(player_uuid, None);
    let rest = all_but(&lobby.members, player_uuid);
    if !is_host {
        lobby.members = copy_ids(&rest);
        state.put_lobby(lobby_id, lobby);
        state.send_to_all(&rest, ServerMessage::PlayerLeft { player_uuid });
    } else {
        let (following, left_behind) = part_by_capability(state, &rest);
        if departure == Departure::Leave && lobby.host_migration && following.len() > 0 {
            hand_over(state, lobby_id, lobby, player_uuid, &rest, following, left_behind);
        } else {
            state.drop_lobby(lobby_id);
            state.drop_code(&lobby.code);
            match departure {
                Departure::Leave => disconnect(state, &rest, "Host left the lobby"),
                Departure::Close => disconnect(state, &rest, "Host closed the lobby"),
            }
        }
    }
    part(state, player_uuid, &rest);
}

/// `player_uuid` leaves its lobby: on request, or because its connection ended.
///
/// A member leaving is announced to the rest. A host leaving a migratable lobby hands it to the
/// member who joined earliest among those that can be told so; otherwise, or when there is no
/// such member, the lobby ends for everyone in it.
pub fn leave_lobby(state: &mut ServerState, player_uuid: u128)
    ensures
        final(state)@ == departed(old(state)@, player_uuid, Departure::Leave),
{
    depart(state, player_uuid, Departure::Leave);
}

/// The host of `player_uuid`'s lobby ends it for everyone, migratable or not. Ignored from anyone
/// but the host.
pub fn close_lobby(state: &mut ServerState, player_uuid: u128)
    ensures
        final(state)@ == departed(old(state)@, player_uuid, Departure::Close),
{
    depart(state, player_uuid, Departure::Close);
}

/// What the listing says of a lobby.
pub open spec fn summary(lobby: LobbyView) -> LobbyInfoView {
    LobbyInfoView {
        lobby_id: lobby.lobby_id,
        code: lobby.code,
        host_name: lobby.host_name,
        player_count: lobby.members.len() as u32,
        max_players: lobby.max_players,
    }
}

/// Whether `listing` says of every lobby what it is, once, in some order.
pub open spec fn lists_all(state: ServerView, listing: Seq<LobbyInfoView>) -> bool {
    exists|order: Seq<u64>|
        {
            &&& #[trigger] order.no_duplicates()
            &&& order.to_set() == state.lobbies.dom()
            &&& listing.len() == order.len()
            &&& forall|i: int|
                0 <= i < order.len() ==> #[trigger] listing[i] == summary(state.lobbies[order[i]])
        }
}

/// Every lobby there is.
pub fn list_lobbies(state: &ServerState) -> (message: ServerMessage)
    ensures
        message@ matches ServerMessageView::LobbyList { lobbies } && lists_all(state@, lobbies),
{
    let ids = state.lobby_ids();
    let mut lobbies: Vec<LobbyInfo> = Vec::new();
    let mut i: usize = 0;
    while i < ids.len()
        invariant
            i <= ids.len(),
            ids@.to_set() == state@.lobbies.dom(),
            lobbies.len() == i,
            forall|j: int|
                0 <= j < i ==> (#[trigger] lobbies[j])@ == summary(state@.lobbies[ids[j]]),
        decreases ids.len() - i,
    {
        assert(ids@.to_set().contains(ids@[i as int]));
        if let Some(lobby) = state.lobby(ids[i]) {
            lobbies.push(
                LobbyInfo {
                    lobby_id: lobby.lobby_id,
                    code: lobby.code,
                    host_name: lobby.host_name,
                    player_count: lobby.members.len() as u32,
                    max_players: lobby.max_players,
                },
            );
        }
        i += 1;
    }
    assert(ids@.no_duplicates());
    ServerMessage::LobbyList { lobbies }
}

} // verus!
