//! What a game asks for, and what is sent when.

use vstd::prelude::*;

use super::events::{Effect, KEEP_ALIVE_INTERVAL};
use super::outcome::JoinFailure;
use super::trust;
use super::trust::seat_removal_is_a_kick;
use super::world;
use super::world::{LobbyEntity, LobbyKind, SeatEntity, SessionWorld};
use crate::lists;
use crate::protocol::ClientMessage;

verus! {

/// How long to wait between attempts to rebuild a lost signalling connection, in nanoseconds.
pub const RECONNECT_INTERVAL: u64 = 5_000_000_000;

/// The requests for lobbies, one for each that is to be hosted.
pub open spec fn creations(hosted: Seq<bool>, max_players: u32) -> Seq<ClientMessage> {
    hosted.filter(is_true()).map_values(
        |hosted: bool| ClientMessage::CreateLobby { max_players },
    )
}

/// Ask for a lobby, once for each that is to be hosted. `hosted` says so of each that was asked
/// for.
pub fn create_lobby(hosted: &Vec<bool>, max_players: u32) -> (messages: Vec<ClientMessage>)
    ensures
        messages@ == creations(hosted@, max_players),
{
    let mut messages: Vec<ClientMessage> = Vec::new();
    let mut i: usize = 0;
    proof {
        reveal(Seq::filter);
        assert(messages@ =~= hosted@.take(0).filter(is_true()).map_values(
            |hosted: bool| ClientMessage::CreateLobby { max_players },
        ));
    }
    while i < hosted.len()
        invariant
            i <= hosted@.len(),
            messages@ == hosted@.take(i as int).filter(is_true()).map_values(
                |hosted: bool| ClientMessage::CreateLobby { max_players },
            ),
        decreases hosted.len() - i,
    {
        proof {
            reveal(Seq::filter);
            assert(hosted@.take(i + 1).drop_last() =~= hosted@.take(i as int));
            assert(hosted@.take(i + 1).last() == hosted@[i as int]);
        }
        if hosted[i] {
            messages.push(ClientMessage::CreateLobby { max_players });
        }
        assert(messages@ =~= hosted@.take(i + 1).filter(is_true()).map_values(
            |hosted: bool| ClientMessage::CreateLobby { max_players },
        ));
        i += 1;
    }
    assert(hosted@.take(i as int) =~= hosted@);
    messages
}

/// What is true.
pub open spec fn is_true() -> spec_fn(bool) -> bool {
    |value: bool| value
}

/// Whether this peer has joined or is joining a lobby.
pub open spec fn is_a_client(lobbies: Seq<LobbyEntity>) -> bool {
    world::first_lobby(lobbies, world::client_lobby()) is Some
}

/// One thing to be done to join a lobby.
#[derive(Debug, PartialEq, Eq)]
pub enum JoinStep {
    /// A lobby to be joined is opened: see [`pending_join`].
    SpawnPendingLobby,
    Send(ClientMessage),
}

/// A lobby to be joined, under the name `entity`, as it is opened: the server has said nothing of
/// it yet.
pub fn pending_join(entity: u64) -> (lobby: LobbyEntity)
    ensures
        lobby == (LobbyEntity {
            entity,
            pending: true,
            hosted: false,
            requested: false,
            lobby_id: None,
            host_uuid: None,
            migratable: false,
            route: None,
            pending_since: None,
        }),
{
    LobbyEntity {
        entity,
        pending: true,
        hosted: false,
        requested: false,
        lobby_id: None,
        host_uuid: None,
        migratable: false,
        route: None,
        pending_since: None,
    }
}

/// What joining the lobby asked for last comes to.
pub open spec fn join_steps(lobbies: Seq<LobbyEntity>, requests: Seq<u64>) -> Seq<JoinStep> {
    if requests.len() > 0 && !is_a_client(lobbies) {
        seq![
            JoinStep::SpawnPendingLobby,
            JoinStep::Send(ClientMessage::JoinLobby { lobby_id: requests.last() }),
        ]
    } else {
        Seq::empty()
    }
}

/// Join the lobby asked for last, unless this peer is in one as a client or on the way into one: a
/// pending lobby is opened, and the server asked.
pub fn join_requested_lobbies(world: &SessionWorld, requests: &Vec<u64>) -> (steps: Vec<JoinStep>)
    ensures
        steps@ == join_steps(world.lobbies@, requests@),
{
    let mut steps: Vec<JoinStep> = Vec::new();
    if requests.len() > 0 && world.first_of(LobbyKind::Client).is_none() {
        steps.push(JoinStep::SpawnPendingLobby);
        steps.push(
            JoinStep::Send(ClientMessage::JoinLobby { lobby_id: requests[requests.len() - 1] }),
        );
        assert(steps@ =~= seq![
            JoinStep::SpawnPendingLobby,
            JoinStep::Send(ClientMessage::JoinLobby { lobby_id: requests@.last() }),
        ]);
    }
    steps
}

/// Join the lobby whose code was asked for last, unless this peer is in one as a client or on the
/// way into one: a pending lobby is opened, and the server asked.
pub fn join_requested_lobbies_by_code(world: &SessionWorld, requests: &Vec<String>) -> (steps: Vec<
    JoinStep,
>)
    ensures
        if requests@.len() > 0 && !is_a_client(world.lobbies@) {
            &&& steps@.len() == 2
            &&& steps@[0] == JoinStep::SpawnPendingLobby
            &&& steps@[1] matches JoinStep::Send(ClientMessage::JoinLobbyByCode { code })
            &&& code@ == requests@.last()@
        } else {
            steps@.len() == 0
        },
{
    let mut steps: Vec<JoinStep> = Vec::new();
    if requests.len() > 0 && world.first_of(LobbyKind::Client).is_none() {
        steps.push(JoinStep::SpawnPendingLobby);
        steps.push(
            JoinStep::Send(
                ClientMessage::JoinLobbyByCode { code: requests[requests.len() - 1].clone() },
            ),
        );
    }
    steps
}

/// A peer that has asked to join a lobby is on the way into one, and asks for no other until that
/// has come to something.
pub proof fn law_a_join_under_way_is_the_only_one(lobbies: Seq<LobbyEntity>, pending: LobbyEntity)
    requires
        !pending.hosted,
    ensures
        is_a_client(lobbies.push(pending)),
{
    let all = lobbies.push(pending);
    lists::lemma_fitting_is_kept(all, world::client_lobby(), lobbies.len() as int);
}

/// Ask for the list of lobbies, once however often it was asked for.
pub fn refresh_lobby_list(requests: usize) -> (message: Option<ClientMessage>)
    ensures
        message == if requests > 0 {
            Some(ClientMessage::ListLobbies)
        } else {
            None
        },
{
    if requests > 0 {
        Some(ClientMessage::ListLobbies)
    } else {
        None
    }
}

/// Whether a lobby that this peer hosts is to be closed.
pub open spec fn is_to_be_closed(lobbies: Seq<LobbyEntity>, requests: usize) -> bool {
    requests > 0 && world::first_lobby(lobbies, world::hosted_lobby()) is Some
}

/// A host ending its lobby for everyone tells the server to close it, rather than to hand it over
/// when the host leaves a frame later.
pub fn close_lobby(world: &SessionWorld, requests: usize) -> (message: Option<ClientMessage>)
    ensures
        message == if is_to_be_closed(world.lobbies@, requests) {
            Some(ClientMessage::CloseLobby)
        } else {
            None
        },
{
    if requests > 0 && world.first_of(LobbyKind::Hosted).is_some() {
        Some(ClientMessage::CloseLobby)
    } else {
        None
    }
}

/// A lobby that is pending, or one that is not.
pub open spec fn pending_is(pending: bool) -> spec_fn(LobbyEntity) -> bool {
    |lobby: LobbyEntity| lobby.pending == pending
}

/// The lobbies that go when the lobby is left, those that are pending first: despawning them is
/// the whole of it.
pub open spec fn left_lobbies(lobbies: Seq<LobbyEntity>) -> Seq<u64> {
    (lobbies.filter(pending_is(true)) + lobbies.filter(pending_is(false))).map_values(
        |lobby: LobbyEntity| lobby.entity,
    )
}

fn push_lobbies(entities: &mut Vec<u64>, lobbies: &Vec<LobbyEntity>, pending: bool)
    ensures
        final(entities)@ == old(entities)@ + lobbies@.filter(pending_is(pending)).map_values(
            |lobby: LobbyEntity| lobby.entity,
        ),
{
    let mut i: usize = 0;
    proof {
        reveal(Seq::filter);
        assert(entities@ =~= old(entities)@ + lobbies@.take(0).filter(
            pending_is(pending),
        ).map_values(|lobby: LobbyEntity| lobby.entity));
    }
    while i < lobbies.len()
        invariant
            i <= lobbies@.len(),
            entities@ == old(entities)@ + lobbies@.take(i as int).filter(
                pending_is(pending),
            ).map_values(|lobby: LobbyEntity| lobby.entity),
        decreases lobbies.len() - i,
    {
        proof {
            reveal(Seq::filter);
            assert(lobbies@.take(i + 1).drop_last() =~= lobbies@.take(i as int));
            assert(lobbies@.take(i + 1).last() == lobbies@[i as int]);
        }
        if lobbies[i].pending == pending {
            entities.push(lobbies[i].entity);
        }
        assert(entities@ =~= old(entities)@ + lobbies@.take(i + 1).filter(
            pending_is(pending),
        ).map_values(|lobby: LobbyEntity| lobby.entity));
        i += 1;
    }
    assert(lobbies@.take(i as int) =~= lobbies@);
}

/// The lobbies to despawn when the game asks to leave.
pub fn leave_lobby(world: &SessionWorld, requests: usize) -> (entities: Vec<u64>)
    ensures
        entities@ == if requests > 0 {
            left_lobbies(world.lobbies@)
        } else {
            Seq::empty()
        },
{
    let mut entities: Vec<u64> = Vec::new();
    if requests > 0 {
        push_lobbies(&mut entities, &world.lobbies, true);
        push_lobbies(&mut entities, &world.lobbies, false);
        assert(entities@ =~= left_lobbies(world.lobbies@));
    }
    entities
}

/// Keep the signalling server's idea of this peer's name equal to `name`.
///
/// Held against what this connection authenticated with, rather than against what was last sent:
/// those differ exactly when the connection was rebuilt underneath.
pub fn publish_display_name(announced: &mut String, name: &String) -> (message: Option<
    ClientMessage,
>)
    ensures
        final(announced)@ == name@,
        match message {
            Some(ClientMessage::SetDisplayName { display_name }) => {
                &&& old(announced)@ != name@
                &&& display_name@ == name@
            },
            Some(_) => false,
            None => old(announced)@ == name@,
        },
{
    if *announced == *name {
        return None;
    }
    *announced = name.clone();
    Some(ClientMessage::SetDisplayName { display_name: name.clone() })
}

/// Something that is done at intervals.
#[derive(Debug, Clone, Copy, PartialEq, Eq)]
pub struct Schedule {
    /// When it is done next, in nanoseconds.
    pub next_at: u64,
}

impl Schedule {
    /// It is done at once.
    pub fn new() -> (schedule: Self)
        ensures
            schedule.next_at == 0,
    {
        Schedule { next_at: 0 }
    }

    fn due(&mut self, now: u64, interval: u64) -> (due: bool)
        requires
            now + interval <= u64::MAX,
        ensures
            due == (now >= old(self).next_at),
            final(self).next_at == if due {
                (now + interval) as u64
            } else {
                old(self).next_at
            },
    {
        if now < self.next_at {
            return false;
        }
        self.next_at = now + interval;
        true
    }
}

/// Whether the server is told at `now` that this peer is still here, and when it is told next.
pub open spec fn keep_alive(
    next_at: u64,
    local_player_uuid: Option<u128>,
    signalling_lost: bool,
    now: u64,
) -> (bool, u64) {
    if local_player_uuid is Some && !signalling_lost && now >= next_at {
        (true, (now + KEEP_ALIVE_INTERVAL) as u64)
    } else {
        (false, next_at)
    }
}

/// Whether a lost connection to the server is built anew at `now`, and when it is tried next.
pub open spec fn rebuilding(
    next_at: u64,
    signalling_lost: bool,
    lobbies_with_id: usize,
    now: u64,
) -> (bool, u64) {
    if signalling_lost && lobbies_with_id == 0 && now >= next_at {
        (true, (now + RECONNECT_INTERVAL) as u64)
    } else {
        (false, next_at)
    }
}

/// Tell the signalling server this peer is still here, every [`KEEP_ALIVE_INTERVAL`].
///
/// Only once the server has said who this peer is — before that there is no session to keep alive
/// — and never on a connection already known to be gone.
pub fn send_keep_alives(
    schedule: &mut Schedule,
    local_player_uuid: Option<u128>,
    signalling_lost: bool,
    now: u64,
) -> (message: Option<ClientMessage>)
    requires
        now + KEEP_ALIVE_INTERVAL <= u64::MAX,
    ensures
        ({
            let (sent, next_at) = keep_alive(
                old(schedule).next_at,
                local_player_uuid,
                signalling_lost,
                now,
            );
            &&& message == if sent {
                Some(ClientMessage::KeepAlive)
            } else {
                None
            }
            &&& final(schedule).next_at == next_at
        }),
{
    if local_player_uuid.is_none() || signalling_lost {
        return None;
    }
    if schedule.due(now, KEEP_ALIVE_INTERVAL) {
        Some(ClientMessage::KeepAlive)
    } else {
        None
    }
}

/// Whether to rebuild a signalling connection that was lost while no lobby was there to rebuild
/// it. `lobbies_with_id` is how many lobbies the server knows.
///
/// Retried at intervals rather than every frame so a server that is down is not hammered.
pub fn reconnect_signalling(
    schedule: &mut Schedule,
    signalling_lost: bool,
    lobbies_with_id: usize,
    now: u64,
) -> (rebuild: bool)
    requires
        now + RECONNECT_INTERVAL <= u64::MAX,
    ensures
        (rebuild, final(schedule).next_at) == rebuilding(
            old(schedule).next_at,
            signalling_lost,
            lobbies_with_id,
            now,
        ),
{
    if !signalling_lost || lobbies_with_id > 0 {
        return false;
    }
    schedule.due(now, RECONNECT_INTERVAL)
}

/// What becomes of a lobby that is still to be created or joined.
#[derive(Debug, Clone, Copy, PartialEq, Eq, Structural)]
pub enum PendingStep {
    /// It is waited for.
    Wait,
    /// It was seen for the first time: the wait starts now.
    Note,
    /// It is given up: it is despawned, and this is said.
    GiveUp(JoinFailure),
}

/// A pending lobby, and what becomes of it.
#[derive(Debug, Clone, Copy, PartialEq, Eq)]
pub struct PendingUpdate {
    pub entity: u64,
    pub step: PendingStep,
}

/// What becomes of a pending lobby, given up after `deadline` nanoseconds.
pub open spec fn pending_step(lobby: LobbyEntity, now: u64, deadline: u64) -> PendingStep {
    match lobby.pending_since {
        None => PendingStep::Note,
        Some(since) => if now - since < deadline {
            PendingStep::Wait
        } else if lobby.hosted {
            PendingStep::GiveUp(JoinFailure::NotCreated)
        } else {
            PendingStep::GiveUp(JoinFailure::NotJoined)
        },
    }
}

/// What becomes of every pending lobby, in order; without a timeout nothing does.
pub open spec fn pending_updates(
    lobbies: Seq<LobbyEntity>,
    now: u64,
    timeout: Option<u64>,
) -> Seq<PendingUpdate> {
    match timeout {
        Some(deadline) => lobbies.filter(pending_is(true)).map_values(
            |lobby: LobbyEntity|
                PendingUpdate { entity: lobby.entity, step: pending_step(lobby, now, deadline) },
        ),
        None => Seq::empty(),
    }
}

/// Give up on a lobby that has been about to happen for too long.
///
/// The backstop for the failures that report nothing at all: an offer that never arrives, a
/// signalling server that accepts a join and goes quiet, a relay that black-holes. Without a
/// timeout nothing is ever given up.
pub fn time_out_pending_lobbies(world: &SessionWorld, now: u64, timeout: Option<u64>) -> (updates:
    Vec<PendingUpdate>)
    ensures
        updates@ == pending_updates(world.lobbies@, now, timeout),
{
    let mut updates: Vec<PendingUpdate> = Vec::new();
    let deadline: u64 = match timeout {
        Some(deadline) => deadline,
        None => return updates,
    };
    let ghost update = |lobby: LobbyEntity|
        PendingUpdate { entity: lobby.entity, step: pending_step(lobby, now, deadline) };
    let mut i: usize = 0;
    proof {
        reveal(Seq::filter);
        assert(updates@ =~= world.lobbies@.take(0).filter(pending_is(true)).map_values(update));
    }
    while i < world.lobbies.len()
        invariant
            i <= world.lobbies@.len(),
            update == (|lobby: LobbyEntity|
                PendingUpdate { entity: lobby.entity, step: pending_step(lobby, now, deadline) }),
            updates@ == world.lobbies@.take(i as int).filter(pending_is(true)).map_values(update),
        decreases world.lobbies.len() - i,
    {
        let lobby: LobbyEntity = world.lobbies[i];
        proof {
            reveal(Seq::filter);
            assert(world.lobbies@.take(i + 1).drop_last() =~= world.lobbies@.take(i as int));
            assert(world.lobbies@.take(i + 1).last() == lobby);
        }
        if lobby.pending {
            let step = match lobby.pending_since {
                None => PendingStep::Note,
                Some(since) => if now < since || now - since < deadline {
                    PendingStep::Wait
                } else if lobby.hosted {
                    PendingStep::GiveUp(JoinFailure::NotCreated)
                } else {
                    PendingStep::GiveUp(JoinFailure::NotJoined)
                },
            };
            updates.push(PendingUpdate { entity: lobby.entity, step });
        }
        assert(updates@ =~= world.lobbies@.take(i + 1).filter(pending_is(true)).map_values(update));
        i += 1;
    }
    assert(world.lobbies@.take(i as int) =~= world.lobbies@);
    updates
}

/// A lobby under the name `entity`.
pub open spec fn lobby_named(entity: u64) -> spec_fn(LobbyEntity) -> bool {
    |lobby: LobbyEntity| lobby.entity == entity
}

/// A seat under the name `entity`.
pub open spec fn seat_named(entity: u64) -> spec_fn(SeatEntity) -> bool {
    |seat: SeatEntity| seat.entity == entity
}

/// The peers a packet for `entity` goes to: from a host everybody who is connected, from a client
/// its host once it is connected, for a seat the player in it.
pub open spec fn packet_targets(
    lobbies: Seq<LobbyEntity>,
    seats: Seq<SeatEntity>,
    host_uuid: Option<u128>,
    connected: Seq<u128>,
    entity: u64,
) -> Seq<u128> {
    match world::first_lobby(lobbies, lobby_named(entity)) {
        Some(lobby) => if lobby.hosted {
            connected
        } else {
            let host = if lobby.host_uuid is Some {
                lobby.host_uuid
            } else {
                host_uuid
            };
            match host {
                Some(host) if connected.contains(host) => seq![host],
                _ => Seq::empty(),
            }
        },
        None => {
            let seat = seats.filter(seat_named(entity));
            if seat.len() > 0 {
                seq![seat[0].webrtc_uuid]
            } else {
                Seq::empty()
            }
        },
    }
}

fn find_lobby(lobbies: &Vec<LobbyEntity>, entity: u64) -> (lobby: Option<LobbyEntity>)
    ensures
        lobby == world::first_lobby(lobbies@, lobby_named(entity)),
{
    let mut i: usize = 0;
    proof {
        reveal(Seq::filter);
    }
    while i < lobbies.len()
        invariant
            i <= lobbies@.len(),
            lobbies@.take(i as int).filter(lobby_named(entity)).len() == 0,
        decreases lobbies.len() - i,
    {
        proof {
            reveal(Seq::filter);
            assert(lobbies@.take(i + 1).drop_last() =~= lobbies@.take(i as int));
        }
        if lobbies[i].entity == entity {
            proof {
                lists::lemma_first_of_filter(lobbies@, i as int, lobby_named(entity));
            }
            return Some(lobbies[i]);
        }
        i += 1;
    }
    assert(lobbies@.take(i as int) =~= lobbies@);
    None
}

fn find_seat(seats: &Vec<SeatEntity>, entity: u64) -> (seat: Option<SeatEntity>)
    ensures
        seat == if seats@.filter(seat_named(entity)).len() > 0 {
            Some(seats@.filter(seat_named(entity))[0])
        } else {
            None
        },
{
    let mut i: usize = 0;
    proof {
        reveal(Seq::filter);
    }
    while i < seats.len()
        invariant
            i <= seats@.len(),
            seats@.take(i as int).filter(seat_named(entity)).len() == 0,
        decreases seats.len() - i,
    {
        proof {
            reveal(Seq::filter);
            assert(seats@.take(i + 1).drop_last() =~= seats@.take(i as int));
        }
        if seats[i].entity == entity {
            proof {
                lists::lemma_first_of_filter(seats@, i as int, seat_named(entity));
            }
            return Some(seats[i]);
        }
        i += 1;
    }
    assert(seats@.take(i as int) =~= seats@);
    None
}

/// Whom a packet triggered on `entity` is sent to.
///
/// A client talks to its host, by name — not to whichever connected peer happens to be listed
/// first. A packet for somebody who has already left goes nowhere.
pub fn send_serialized_lobby_packet(
    world: &SessionWorld,
    host_uuid: Option<u128>,
    connected: &Vec<u128>,
    entity: u64,
) -> (targets: Vec<u128>)
    ensures
        targets@ == packet_targets(
            world.lobbies@,
            world.seats@,
            host_uuid,
            connected@,
            entity,
        ),
{
    let mut targets: Vec<u128> = Vec::new();
    if let Some(lobby) = find_lobby(&world.lobbies, entity) {
        if lobby.hosted {
            let mut i: usize = 0;
            while i < connected.len()
                invariant
                    i <= connected@.len(),
                    targets@ =~= connected@.take(i as int),
                decreases connected.len() - i,
            {
                targets.push(connected[i]);
                i += 1;
            }
            assert(connected@.take(i as int) =~= connected@);
            return targets;
        }
        let host = if lobby.host_uuid.is_some() {
            lobby.host_uuid
        } else {
            host_uuid
        };
        if let Some(host) = host {
            let mut i: usize = 0;
            while i < connected.len()
                invariant
                    i <= connected@.len(),
                    targets@ == Seq::<u128>::empty(),
                    forall|j: int| 0 <= j < i ==> connected@[j] != host,
                    Some(lobby) == world::first_lobby(world.lobbies@, lobby_named(entity)),
                    !lobby.hosted,
                    Some(host) == if lobby.host_uuid is Some {
                        lobby.host_uuid
                    } else {
                        host_uuid
                    },
                decreases connected.len() - i,
            {
                if connected[i] == host {
                    targets.push(host);
                    assert(targets@ =~= seq![host]);
                    return targets;
                }
                i += 1;
            }
        }
        return targets;
    }
    if let Some(seat) = find_seat(&world.seats, entity) {
        targets.push(seat.webrtc_uuid);
        assert(targets@ =~= seq![seat.webrtc_uuid]);
    }
    targets
}

/// One thing to be done when a lobby that the server knows went away.
#[derive(Debug, PartialEq, Eq)]
pub enum LeaveStep {
    Send(ClientMessage),
    Apply(Effect),
    /// The connection to the server is built anew, under the name the player goes by now.
    Rebuild,
}

/// What is done when a lobby that the server knows went away.
pub open spec fn leave_steps() -> Seq<LeaveStep> {
    seq![
        LeaveStep::Send(ClientMessage::LeaveLobby),
        LeaveStep::Apply(Effect::DisconnectAll),
        LeaveStep::Apply(Effect::ForgetLocalId),
        LeaveStep::Apply(Effect::ForgetHostUuid),
        LeaveStep::Rebuild,
    ]
}

/// What is done when `removed` lobbies that the server knows went away: for each of them the
/// server is told, every peer disconnected, the session's identity forgotten, and the connection
/// built anew. The server says who this peer is on the new connection; the host is whoever the
/// next lobby says.
pub fn detect_lobby_leave(removed: usize) -> (steps: Vec<LeaveStep>)
    requires
        removed * 5 <= usize::MAX,
    ensures
        steps@.len() == removed * 5,
        forall|i: int| 0 <= i < steps@.len() ==> #[trigger] steps@[i] == leave_steps()[i % 5],
{
    let mut steps: Vec<LeaveStep> = Vec::new();
    let mut i: usize = 0;
    while i < removed
        invariant
            i <= removed,
            steps@.len() == i * 5,
            forall|j: int| 0 <= j < steps@.len() ==> #[trigger] steps@[j] == leave_steps()[j % 5],
        decreases removed - i,
    {
        steps.push(LeaveStep::Send(ClientMessage::LeaveLobby));
        steps.push(LeaveStep::Apply(Effect::DisconnectAll));
        steps.push(LeaveStep::Apply(Effect::ForgetLocalId));
        steps.push(LeaveStep::Apply(Effect::ForgetHostUuid));
        steps.push(LeaveStep::Rebuild);
        i += 1;
    }
    steps
}

/// What is done with the peer of a seat that was removed.
#[derive(Debug, Clone, Copy, PartialEq, Eq)]
pub struct SeatRemoval {
    /// The peer to be disconnected.
    pub disconnect: u128,
    /// The player to be told first that it was removed; `None` when it is not to be told.
    pub tell: Option<u128>,
}

/// What is done with the peer of a seat that was removed.
pub open spec fn seat_removal(lobbies: Seq<LobbyEntity>, seat: SeatEntity) -> Option<SeatRemoval> {
    if seat.pending {
        None
    } else {
        Some(
            SeatRemoval {
                disconnect: seat.webrtc_uuid,
                tell: if trust::is_a_kick(seat.lobby, lobbies) {
                    Some(seat.player_uuid)
                } else {
                    None
                },
            },
        )
    }
}

/// What is done with the peer of a seat that was removed: it is disconnected, and a kick is told
/// to it before that. Nothing is done about a seat that was still pending: its player was no client
/// of the lobby yet.
pub fn disconnect_removed_lobby_client(world: &SessionWorld, seat: SeatEntity) -> (removal: Option<
    SeatRemoval,
>)
    ensures
        removal == seat_removal(world.lobbies@, seat),
{
    if seat.pending {
        return None;
    }
    let tell = if seat_removal_is_a_kick(seat.lobby, world) {
        Some(seat.player_uuid)
    } else {
        None
    };
    Some(SeatRemoval { disconnect: seat.webrtc_uuid, tell })
}

/// A client's packets reach its host or nobody: whoever else is connected never hears them.
pub proof fn law_a_client_speaks_to_its_host_alone(
    lobbies: Seq<LobbyEntity>,
    seats: Seq<SeatEntity>,
    host_uuid: Option<u128>,
    connected: Seq<u128>,
    lobby: LobbyEntity,
    host: u128,
)
    requires
        world::first_lobby(lobbies, lobby_named(lobby.entity)) == Some(lobby),
        !lobby.hosted,
        lobby.host_uuid == Some(host),
    ensures
        packet_targets(lobbies, seats, host_uuid, connected, lobby.entity) == if connected.contains(
            host,
        ) {
            seq![host]
        } else {
            Seq::empty()
        },
{
}

} // verus!
