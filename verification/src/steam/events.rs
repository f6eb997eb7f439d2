//! What Steam's word does to a session.

use vstd::prelude::*;

use super::teardown;
use super::teardown::{tear_down_client_lobby, JoinFailure, LobbyLeftReason, SteamEffect};
use super::world;
use super::world::{LobbyId, LobbyKind, SteamCache, SteamId, SteamLobby, SteamSeat, SteamWorld};
use crate::lists;

verus! {

/// What Steam calls a result that is none of its errors.
pub const STEAM_RESULT_OK: u32 = 1;

/// What happened to a member of a lobby.
#[derive(Debug, Clone, Copy, PartialEq, Eq, Structural)]
pub enum MemberChange {
    Entered,
    Left,
    Disconnected,
    Kicked,
    Banned,
}

/// Something Steam says.
#[derive(Debug, PartialEq, Eq)]
pub enum SteamEvent {
    LobbyCreated { result: u32, lobby: LobbyId },
    /// A lobby was entered, or the join was refused with this response.
    LobbyEnter { lobby: LobbyId, refused: Option<String> },
    /// The user asked to join a lobby from the Steam overlay.
    JoinRequested { lobby: LobbyId },
    /// A member of a lobby came or went.
    MemberChanged { lobby: LobbyId, user: SteamId, change: MemberChange },
    /// The messages session with a user failed.
    SessionFailed { remote: Option<SteamId> },
}

/// Every lobby despawned, in order.
pub open spec fn despawns(lobbies: Seq<SteamLobby>) -> Seq<SteamEffect> {
    lobbies.map_values(|lobby: SteamLobby| SteamEffect::DespawnLobby(lobby.entity))
}

/// A client's lobby on Steam.
pub open spec fn entered_as(lobby: LobbyId) -> spec_fn(SteamLobby) -> bool {
    |entered: SteamLobby|
        !entered.hosted && entered.host is Some && entered.lobby_id == Some(lobby)
}

/// A client's lobby on Steam that is pinned to `host`.
pub open spec fn entered_with(lobby: LobbyId, host: SteamId) -> spec_fn(SteamLobby) -> bool {
    |entered: SteamLobby|
        !entered.hosted && entered.host == Some(host) && entered.lobby_id == Some(lobby)
}

/// A client's active lobby that is pinned to `host`.
pub open spec fn active_with(host: SteamId) -> spec_fn(SteamLobby) -> bool {
    |entered: SteamLobby|
        !entered.hosted && !entered.pending && entered.host == Some(host)
            && entered.lobby_id is Some
}

/// What a lobby that was or was not created does.
pub open spec fn on_created(
    lobbies: Seq<SteamLobby>,
    local: SteamId,
    result: u32,
    lobby: LobbyId,
) -> Seq<SteamEffect> {
    if result != STEAM_RESULT_OK {
        despawns(lobbies.filter(world::requested_lobby())).push(
            SteamEffect::JoinFailed(JoinFailure::NotCreated(result)),
        )
    } else {
        seq![
            SteamEffect::SetLocalId(local.player()),
            SteamEffect::SetHostUuid(local.player()),
            SteamEffect::SetCurrentLobby(Some(lobby)),
        ] + match world::first(lobbies, world::requested_lobby()) {
            Some(requested) => seq![
                SteamEffect::PromoteHosted { entity: requested.entity, lobby_id: lobby },
            ],
            None => Seq::empty(),
        }
    }
}

/// What a lobby that was or was not entered does. The host, which is whoever owns the lobby then,
/// is pinned before its first handshake can arrive.
pub open spec fn on_entered(
    lobbies: Seq<SteamLobby>,
    steam: SteamCache,
    local: SteamId,
    lobby: LobbyId,
    refused: Option<String>,
) -> Seq<SteamEffect> {
    match world::first(lobbies, world::unentered_lobby()) {
        // A host's lobby is entered as well, when it is created.
        None => Seq::empty(),
        Some(joining) => match refused {
            None => seq![
                SteamEffect::SetLocalId(local.player()),
                SteamEffect::SetHostUuid(steam.owner(lobby).player()),
                SteamEffect::SetCurrentLobby(Some(lobby)),
                SteamEffect::AttachJoined {
                    entity: joining.entity,
                    lobby_id: lobby,
                    host: steam.owner(lobby),
                },
            ],
            Some(response) => seq![
                SteamEffect::DespawnLobby(joining.entity),
                SteamEffect::JoinFailed(JoinFailure::Refused(response)),
            ],
        },
    }
}

/// Whether this peer has joined or is joining a lobby.
pub open spec fn is_a_client(lobbies: Seq<SteamLobby>) -> bool {
    ||| world::first(lobbies, world::entered_lobby()) is Some
    ||| world::first(lobbies, world::joining_lobby()) is Some
}

/// What joining a lobby from the overlay does: nothing, when this peer is in one as a client or on
/// the way into one.
pub open spec fn on_join_requested(lobbies: Seq<SteamLobby>, lobby: LobbyId) -> Seq<SteamEffect> {
    if is_a_client(lobbies) {
        Seq::empty()
    } else {
        seq![SteamEffect::SpawnPendingLobby, SteamEffect::JoinLobby(lobby)]
    }
}

/// A seat opened for `user`, unless it has one.
pub open spec fn seat_opened(seats: Seq<SteamSeat>, lobby: u64, user: SteamId) -> Seq<
    SteamEffect,
> {
    if world::first(seats, world::known_as(user)) is Some {
        Seq::empty()
    } else {
        seq![
            SteamEffect::SpawnSeat { lobby, steam_id: user, player_uuid: user.player() },
        ]
    }
}

/// What a member who went does to a session.
pub open spec fn on_member_gone(
    lobbies: Seq<SteamLobby>,
    seats: Seq<SteamSeat>,
    steam: SteamCache,
    local: SteamId,
    lobby: LobbyId,
    user: SteamId,
    removed: bool,
) -> Seq<SteamEffect> {
    if user == local {
        // This peer still holds a lobby that Steam says it is no longer in: Steam's doing, since
        // it would have let go of it first.
        match world::first(lobbies, entered_as(lobby)) {
            Some(entered) => teardown::torn_down(
                entered,
                if removed {
                    LobbyLeftReason::Kicked
                } else {
                    LobbyLeftReason::HostGone
                },
            ),
            None => Seq::empty(),
        }
    } else if let Some(hosted) = world::single_hosted(lobbies) {
        let seat = world::first(seats, world::seat_of(user));
        (match seat {
            Some(seat) => seq![SteamEffect::DespawnSeat(seat.entity)],
            None => Seq::empty(),
        }) + (if seat is Some && !seat->0.pending {
            // A connected seat's removal takes its participant with it.
            Seq::empty()
        } else {
            // A member this host inherited and never reached has no seat to remove, but it may
            // have a participant.
            seq![
                SteamEffect::ParticipantDeparted { lobby: hosted, player_uuid: user.player() },
            ]
        })
    } else if let Some(entered) = world::first(lobbies, entered_with(lobby, user)) {
        if !entered.pending && entered.migratable && !steam.closed(lobby) {
            // Steam is about to name a new owner, or already has, in which case it is followed
            // this frame.
            if steam.owner(lobby) == user {
                seq![SteamEffect::HostLost(entered.entity)]
            } else {
                Seq::empty()
            }
        } else {
            teardown::torn_down(entered, LobbyLeftReason::HostGone)
        }
    } else if let Some(entered) = world::first(lobbies, entered_as(lobby)) {
        seq![
            SteamEffect::ParticipantDeparted {
                lobby: entered.entity,
                player_uuid: user.player(),
            },
        ]
    } else {
        Seq::empty()
    }
}

/// What a member who came does to a session.
pub open spec fn on_member_entered(
    lobbies: Seq<SteamLobby>,
    seats: Seq<SteamSeat>,
    local: SteamId,
    user: SteamId,
) -> Seq<SteamEffect> {
    match world::single_hosted(lobbies) {
        Some(hosted) if user != local => seat_opened(seats, hosted, user),
        _ => Seq::empty(),
    }
}

/// What a session that failed does.
pub open spec fn on_session_failed(
    lobbies: Seq<SteamLobby>,
    seats: Seq<SteamSeat>,
    steam: SteamCache,
    remote: Option<SteamId>,
) -> Seq<SteamEffect> {
    match remote {
        None => Seq::empty(),
        Some(remote) => if world::single_hosted(lobbies) is Some {
            match world::first(seats, world::seat_of(remote)) {
                Some(seat) => seq![SteamEffect::DespawnSeat(seat.entity)],
                None => Seq::empty(),
            }
        } else {
            // Only an active lobby: while the join is still pending, a session that fails to open
            // is retried by the handshake, not given up on.
            match world::first(lobbies, active_with(remote)) {
                None => Seq::empty(),
                Some(entered) => if !entered.migratable {
                    teardown::torn_down(entered, LobbyLeftReason::HostGone)
                } else if steam.members(entered.lobby_id->0).contains(remote) {
                    // The next send opens a new session. While the host is still in the lobby it
                    // may answer on it.
                    Seq::empty()
                } else {
                    seq![SteamEffect::HostLost(entered.entity)]
                },
            }
        },
    }
}

/// What an event does to a session.
pub open spec fn reaction(
    lobbies: Seq<SteamLobby>,
    seats: Seq<SteamSeat>,
    steam: SteamCache,
    local: SteamId,
    event: SteamEvent,
) -> Seq<SteamEffect> {
    match event {
        SteamEvent::LobbyCreated { result, lobby } => on_created(lobbies, local, result, lobby),
        SteamEvent::LobbyEnter { lobby, refused } => {
            on_entered(lobbies, steam, local, lobby, refused)
        },
        SteamEvent::JoinRequested { lobby } => on_join_requested(lobbies, lobby),
        SteamEvent::MemberChanged { lobby, user, change } => match change {
            MemberChange::Entered => on_member_entered(lobbies, seats, local, user),
            MemberChange::Left | MemberChange::Disconnected => {
                on_member_gone(lobbies, seats, steam, local, lobby, user, false)
            },
            MemberChange::Kicked | MemberChange::Banned => {
                on_member_gone(lobbies, seats, steam, local, lobby, user, true)
            },
        },
        SteamEvent::SessionFailed { remote } => on_session_failed(lobbies, seats, steam, remote),
    }
}

/// What an entered lobby is looked for by.
#[derive(Debug, Clone, Copy, PartialEq, Eq, Structural)]
enum Wanted {
    As(LobbyId),
    With(LobbyId, SteamId),
    ActiveWith(SteamId),
}

impl Wanted {
    spec fn fits(self) -> spec_fn(SteamLobby) -> bool {
        match self {
            Wanted::As(lobby) => entered_as(lobby),
            Wanted::With(lobby, host) => entered_with(lobby, host),
            Wanted::ActiveWith(host) => active_with(host),
        }
    }

    fn is(self, lobby: &SteamLobby) -> (is: bool)
        ensures
            is == (self.fits())(*lobby),
    {
        match (lobby.host, lobby.lobby_id) {
            (Some(host), Some(lobby_id)) => match self {
                Wanted::As(wanted) => !lobby.hosted && lobby_id == wanted,
                Wanted::With(wanted, by) => !lobby.hosted && lobby_id == wanted && host == by,
                Wanted::ActiveWith(by) => !lobby.hosted && !lobby.pending && host == by,
            },
            _ => false,
        }
    }
}

fn find_lobby(lobbies: &Vec<SteamLobby>, wanted: Wanted) -> (found: Option<SteamLobby>)
    ensures
        found == world::first(lobbies@, wanted.fits()),
        found matches Some(lobby) ==> lobby.host is Some && lobby.lobby_id is Some,
{
    let mut i: usize = 0;
    proof {
        reveal(Seq::filter);
    }
    while i < lobbies.len()
        invariant
            i <= lobbies@.len(),
            lobbies@.take(i as int).filter(wanted.fits()).len() == 0,
        decreases lobbies.len() - i,
    {
        proof {
            reveal(Seq::filter);
            assert(lobbies@.take(i + 1).drop_last() =~= lobbies@.take(i as int));
        }
        if wanted.is(&lobbies[i]) {
            proof {
                lists::lemma_first_of_filter(lobbies@, i as int, wanted.fits());
            }
            return Some(lobbies[i]);
        }
        i += 1;
    }
    assert(lobbies@.take(i as int) =~= lobbies@);
    None
}

fn created(world: &SteamWorld, local: SteamId, result: u32, lobby: LobbyId) -> (effects: Vec<
    SteamEffect,
>)
    ensures
        effects@ == on_created(world.lobbies@, local, result, lobby),
{
    let mut effects: Vec<SteamEffect> = Vec::new();
    if result != STEAM_RESULT_OK {
        let requested = world.lobbies_of(LobbyKind::Requested);
        let mut i: usize = 0;
        while i < requested.len()
            invariant
                i <= requested@.len(),
                effects@ =~= despawns(requested@.take(i as int)),
            decreases requested.len() - i,
        {
            effects.push(SteamEffect::DespawnLobby(requested[i].entity));
            i += 1;
        }
        assert(requested@.take(i as int) =~= requested@);
        effects.push(SteamEffect::JoinFailed(JoinFailure::NotCreated(result)));
        return effects;
    }
    effects.push(SteamEffect::SetLocalId(local.player_uuid()));
    effects.push(SteamEffect::SetHostUuid(local.player_uuid()));
    effects.push(SteamEffect::SetCurrentLobby(Some(lobby)));
    if let Some(requested) = world.first_of(LobbyKind::Requested) {
        effects.push(SteamEffect::PromoteHosted { entity: requested.entity, lobby_id: lobby });
    }
    assert(effects@ =~= on_created(world.lobbies@, local, result, lobby));
    effects
}

fn entered(
    world: &SteamWorld,
    steam: &SteamCache,
    local: SteamId,
    lobby: LobbyId,
    refused: Option<String>,
) -> (effects: Vec<SteamEffect>)
    ensures
        effects@ == on_entered(world.lobbies@, *steam, local, lobby, refused),
{
    let ghost due = on_entered(world.lobbies@, *steam, local, lobby, refused);
    let mut effects: Vec<SteamEffect> = Vec::new();
    if let Some(joining) = world.first_of(LobbyKind::Unentered) {
        match refused {
            None => {
                let host = steam.lobby_owner(lobby);
                effects.push(SteamEffect::SetLocalId(local.player_uuid()));
                effects.push(SteamEffect::SetHostUuid(host.player_uuid()));
                effects.push(SteamEffect::SetCurrentLobby(Some(lobby)));
                effects.push(
                    SteamEffect::AttachJoined { entity: joining.entity, lobby_id: lobby, host },
                );
            },
            Some(response) => {
                effects.push(SteamEffect::DespawnLobby(joining.entity));
                effects.push(SteamEffect::JoinFailed(JoinFailure::Refused(response)));
            },
        }
    }
    assert(effects@ =~= due);
    effects
}

/// Open a seat for `user`, unless it has one.
pub fn ensure_pending_lobby_client_for_remote(
    effects: &mut Vec<SteamEffect>,
    world: &SteamWorld,
    lobby: u64,
    user: SteamId,
)
    ensures
        final(effects)@ == old(effects)@ + seat_opened(world.seats@, lobby, user),
{
    if !world.is_known(user) {
        effects.push(
            SteamEffect::SpawnSeat { lobby, steam_id: user, player_uuid: user.player_uuid() },
        );
    }
    assert(effects@ =~= old(effects)@ + seat_opened(world.seats@, lobby, user));
}

/// Despawn `user`'s seat, and say whether it was a connected one: one whose removal takes its
/// participant with it, rather than a seat still waiting for its first handshake.
fn despawn_lobby_client_for_remote(
    effects: &mut Vec<SteamEffect>,
    world: &SteamWorld,
    user: SteamId,
) -> (connected: bool)
    ensures
        final(effects)@ == old(effects)@ + match world::first(world.seats@, world::seat_of(user)) {
            Some(seat) => seq![SteamEffect::DespawnSeat(seat.entity)],
            None => Seq::empty(),
        },
        connected == (world::first(world.seats@, world::seat_of(user)) matches Some(seat)
            && !seat.pending),
{
    match world.seat_of(user) {
        Some(seat) => {
            effects.push(SteamEffect::DespawnSeat(seat.entity));
            assert(effects@ =~= old(effects)@ + seq![SteamEffect::DespawnSeat(seat.entity)]);
            !seat.pending
        },
        None => {
            assert(effects@ =~= old(effects)@ + Seq::<SteamEffect>::empty());
            false
        },
    }
}

fn member_gone(
    world: &SteamWorld,
    steam: &SteamCache,
    local: SteamId,
    lobby: LobbyId,
    user: SteamId,
    removed: bool,
) -> (effects: Vec<SteamEffect>)
    ensures
        effects@ == on_member_gone(
            world.lobbies@,
            world.seats@,
            *steam,
            local,
            lobby,
            user,
            removed,
        ),
{
    let mut effects: Vec<SteamEffect> = Vec::new();
    let ghost due = on_member_gone(
        world.lobbies@,
        world.seats@,
        *steam,
        local,
        lobby,
        user,
        removed,
    );
    if user == local {
        let reason = if removed {
            LobbyLeftReason::Kicked
        } else {
            LobbyLeftReason::HostGone
        };
        if let Some(entered) = find_lobby(&world.lobbies, Wanted::As(lobby)) {
            tear_down_client_lobby(&mut effects, &entered, reason);
        }
    } else if let Some(hosted) = world.single_hosted() {
        let connected = despawn_lobby_client_for_remote(&mut effects, world, user);
        if !connected {
            effects.push(
                SteamEffect::ParticipantDeparted {
                    lobby: hosted,
                    player_uuid: user.player_uuid(),
                },
            );
        }
    } else if let Some(entered) = find_lobby(&world.lobbies, Wanted::With(lobby, user)) {
        if !entered.pending && entered.migratable && !steam.lobby_is_closed(lobby) {
            if steam.lobby_owner(lobby) == user {
                effects.push(SteamEffect::HostLost(entered.entity));
            }
        } else {
            tear_down_client_lobby(&mut effects, &entered, LobbyLeftReason::HostGone);
        }
    } else if let Some(entered) = find_lobby(&world.lobbies, Wanted::As(lobby)) {
        // The roster drops another member only if no host is there to do so.
        effects.push(
            SteamEffect::ParticipantDeparted {
                lobby: entered.entity,
                player_uuid: user.player_uuid(),
            },
        );
    }
    assert(effects@ =~= due);
    effects
}

fn session_failed(world: &SteamWorld, steam: &SteamCache, remote: Option<SteamId>) -> (effects:
    Vec<SteamEffect>)
    ensures
        effects@ == on_session_failed(world.lobbies@, world.seats@, *steam, remote),
{
    let mut effects: Vec<SteamEffect> = Vec::new();
    if let Some(remote) = remote {
        if world.single_hosted().is_some() {
            let _ = despawn_lobby_client_for_remote(&mut effects, world, remote);
        } else if let Some(entered) = find_lobby(&world.lobbies, Wanted::ActiveWith(remote)) {
            if !entered.migratable {
                tear_down_client_lobby(&mut effects, &entered, LobbyLeftReason::HostGone);
            } else if let Some(lobby_id) = entered.lobby_id {
                let members = steam.lobby_members(lobby_id);
                let still_member = super::trust::accept_session_request(
                    members.as_slice(),
                    remote,
                );
                if !still_member {
                    effects.push(SteamEffect::HostLost(entered.entity));
                }
            }
        }
    }
    assert(effects@ =~= on_session_failed(world.lobbies@, world.seats@, *steam, remote));
    effects
}

/// What an event does to a session.
pub fn react_to_event(
    world: &SteamWorld,
    steam: &SteamCache,
    local: SteamId,
    event: SteamEvent,
) -> (effects: Vec<SteamEffect>)
    ensures
        effects@ == reaction(world.lobbies@, world.seats@, *steam, local, event),
{
    match event {
        SteamEvent::LobbyCreated { result, lobby } => created(world, local, result, lobby),
        SteamEvent::LobbyEnter { lobby, refused } => entered(world, steam, local, lobby, refused),
        SteamEvent::JoinRequested { lobby } => {
            let mut effects: Vec<SteamEffect> = Vec::new();
            if world.first_of(LobbyKind::Entered).is_none() && world.first_of(
                LobbyKind::Joining,
            ).is_none() {
                effects.push(SteamEffect::SpawnPendingLobby);
                effects.push(SteamEffect::JoinLobby(lobby));
            }
            assert(effects@ =~= on_join_requested(world.lobbies@, lobby));
            effects
        },
        SteamEvent::MemberChanged { lobby, user, change } => match change {
            MemberChange::Entered => {
                let mut effects: Vec<SteamEffect> = Vec::new();
                if user != local {
                    if let Some(hosted) = world.single_hosted() {
                        ensure_pending_lobby_client_for_remote(&mut effects, world, hosted, user);
                    }
                }
                assert(effects@ =~= on_member_entered(
                    world.lobbies@,
                    world.seats@,
                    local,
                    user,
                ));
                effects
            },
            MemberChange::Left | MemberChange::Disconnected => {
                member_gone(world, steam, local, lobby, user, false)
            },
            MemberChange::Kicked | MemberChange::Banned => {
                member_gone(world, steam, local, lobby, user, true)
            },
        },
        SteamEvent::SessionFailed { remote } => session_failed(world, steam, remote),
    }
}

/// What is done about a frame's events, in order. Each is read against the session as it stood
/// before them.
pub open spec fn reactions(
    lobbies: Seq<SteamLobby>,
    seats: Seq<SteamSeat>,
    steam: SteamCache,
    local: SteamId,
    events: Seq<SteamEvent>,
) -> Seq<SteamEffect>
    decreases events.len(),
{
    if events.len() == 0 {
        Seq::empty()
    } else {
        reactions(lobbies, seats, steam, local, events.drop_last()) + reaction(
            lobbies,
            seats,
            steam,
            local,
            events.last(),
        )
    }
}

/// Decide what is done about a frame's events.
pub fn react_to_events(
    world: &SteamWorld,
    steam: &SteamCache,
    local: SteamId,
    events: Vec<SteamEvent>,
) -> (effects: Vec<SteamEffect>)
    ensures
        effects@ == reactions(world.lobbies@, world.seats@, *steam, local, events@),
{
    let ghost all = events@;
    let mut effects: Vec<SteamEffect> = Vec::new();
    assert(all.take(0) =~= Seq::<SteamEvent>::empty());
    for event in iter: events
        invariant
            iter.seq() == all,
            effects@ == reactions(
                world.lobbies@,
                world.seats@,
                *steam,
                local,
                all.take(iter.index() as int),
            ),
    {
        proof {
            let i = iter.index() as int;
            assert(all.take(i + 1).drop_last() =~= all.take(i));
            assert(all.take(i + 1).last() == event);
        }
        let mut more = react_to_event(world, steam, local, event);
        effects.append(&mut more);
    }
    assert(all.take(all.len() as int) =~= all);
    effects
}

/// No one but the host leaving ends a client's session: any other member going takes no lobby
/// down.
pub proof fn law_another_member_leaving_ends_nothing(
    lobbies: Seq<SteamLobby>,
    seats: Seq<SteamSeat>,
    steam: SteamCache,
    local: SteamId,
    lobby: LobbyId,
    user: SteamId,
    removed: bool,
)
    requires
        user != local,
        world::first(lobbies, entered_with(lobby, user)) is None,
    ensures
        forall|i: int|
            0 <= i < on_member_gone(lobbies, seats, steam, local, lobby, user, removed).len()
                ==> !((#[trigger] on_member_gone(
                lobbies,
                seats,
                steam,
                local,
                lobby,
                user,
                removed,
            )[i]) is EndLobby),
{
}

/// Nobody is given a second seat.
pub proof fn law_one_seat_each(seats: Seq<SteamSeat>, lobby: u64, seat: SteamSeat)
    requires
        seats.contains(seat),
    ensures
        seat_opened(seats, lobby, seat.steam_id) == Seq::<SteamEffect>::empty(),
{
    broadcast use vstd::seq_lib::group_filter_ensures;

    let i = choose|i: int| 0 <= i < seats.len() && seats[i] == seat;
    assert(world::known_as(seat.steam_id)(seats[i]));
    assert(seats.filter(world::known_as(seat.steam_id)).contains(seats[i]));
}

} // verus!
