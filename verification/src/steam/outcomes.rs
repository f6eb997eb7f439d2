//! What a session over Steam comes to when Steam says something: which lobbies and seats there are
//! afterwards, who hosts, and who is told.

use vstd::prelude::*;

use super::events;
use super::events::{MemberChange, SteamEvent};
use super::owner;
use super::owner::OwnerStep;
use super::session;
use super::teardown;
use super::teardown::{JoinFailure, LobbyLeftReason, SteamEffect};
use super::trust;
use super::trust::OwnerChange;
use super::world;
use super::world::{
    LobbyId, LobbyKind, SteamCache, SteamId, SteamLobby, SteamSeat,
};
use crate::lists;

verus! {

/// Whether the `i`th lobby is active and hosted here, and no other is.
pub open spec fn is_the_only_hosted(lobbies: Seq<SteamLobby>, i: int) -> bool {
    &&& 0 <= i < lobbies.len()
    &&& lobbies[i].hosted && !lobbies[i].pending
    &&& forall|j: int|
        0 <= j < lobbies.len() && j != i ==> !(#[trigger] lobbies[j]).hosted || lobbies[j].pending
}

/// Whether no lobby is active and hosted here.
pub open spec fn hosts_none(lobbies: Seq<SteamLobby>) -> bool {
    forall|j: int|
        0 <= j < lobbies.len() ==> !(#[trigger] lobbies[j]).hosted || lobbies[j].pending
}

/// Whether a lobby is one that this peer has entered as a guest on Steam.
pub open spec fn is_entered(lobby: SteamLobby, id: LobbyId) -> bool {
    !lobby.hosted && lobby.host is Some && lobby.lobby_id == Some(id)
}

/// Whether a seat is that of a Steam user, or of the player that it plays as.
pub open spec fn is_seat_of(seat: SteamSeat, user: SteamId) -> bool {
    seat.steam_id == user || seat.player_uuid == user.0
}

/// Whether a Steam user has a seat.
pub open spec fn is_seated(seats: Seq<SteamSeat>, user: SteamId) -> bool {
    exists|i: int| 0 <= i < seats.len() && is_seat_of(#[trigger] seats[i], user)
}

pub(crate) proof fn lemma_first<T>(list: Seq<T>, fits: spec_fn(T) -> bool, i: int)
    requires
        0 <= i < list.len(),
        fits(list[i]),
        forall|j: int| 0 <= j < i ==> !fits(#[trigger] list[j]),
    ensures
        world::first(list, fits) == Some(list[i]),
{
    let before = list.take(i);
    assert forall|j: int| 0 <= j < before.len() implies !fits(#[trigger] before[j]) by {
        assert(before[j] == list[j]);
    }
    lists::lemma_none_kept(before, fits);
    lists::lemma_first_of_filter(list, i, fits);
}

pub(crate) proof fn lemma_found<T>(list: Seq<T>, fits: spec_fn(T) -> bool)
    ensures
        world::first(list, fits) is Some == exists|i: int|
            0 <= i < list.len() && fits(#[trigger] list[i]),
{
    if list.filter(fits).len() > 0 {
        lists::lemma_kept_is_part(list, fits, 0);
        let i = choose|i: int| 0 <= i < list.len() && list[i] == list.filter(fits)[0];
        assert(fits(list[i]));
    }
    assert forall|i: int| 0 <= i < list.len() && fits(#[trigger] list[i]) implies list.filter(
        fits,
    ).len() > 0 by {
        lists::lemma_fitting_is_kept(list, fits, i);
    }
}

pub(crate) proof fn lemma_hosted(lobbies: Seq<SteamLobby>, i: int)
    ensures
        is_the_only_hosted(lobbies, i) ==> world::single_hosted(lobbies) == Some(lobbies[i].entity),
        hosts_none(lobbies) ==> world::single_hosted(lobbies) is None,
{
    let fits = world::hosted_lobby();
    if is_the_only_hosted(lobbies, i) {
        lists::lemma_only(lobbies, fits, i);
    }
    if hosts_none(lobbies) {
        lists::lemma_none_kept(lobbies, fits);
    }
}

pub(crate) proof fn lemma_seated(seats: Seq<SteamSeat>, user: SteamId)
    ensures
        world::first(seats, world::known_as(user)) is Some == is_seated(seats, user),
{
    let fits = world::known_as(user);
    lemma_found(seats, fits);
    if is_seated(seats, user) {
        let i = choose|i: int| 0 <= i < seats.len() && is_seat_of(#[trigger] seats[i], user);
        assert(fits(seats[i]));
    }
    if world::first(seats, fits) is Some {
        let i = choose|i: int| 0 <= i < seats.len() && fits(#[trigger] seats[i]);
        assert(is_seat_of(seats[i], user));
    }
}

/// What makes a lobby one of each kind.
pub proof fn law_lobbies_are_told_apart(lobby: SteamLobby)
    ensures
        (LobbyKind::Hosted.includes())(lobby) == (lobby.hosted && !lobby.pending),
        (LobbyKind::Requested.includes())(lobby) == (lobby.hosted && lobby.requested),
        (LobbyKind::Entered.includes())(lobby) == (!lobby.hosted && lobby.lobby_id is Some
            && lobby.host is Some),
        (LobbyKind::Joining.includes())(lobby) == (!lobby.hosted && lobby.pending),
        (LobbyKind::Unentered.includes())(lobby) == (!lobby.hosted && lobby.pending
            && lobby.lobby_id is None),
        (LobbyKind::Followed.includes())(lobby) == (!lobby.hosted && lobby.lobby_id is Some
            && lobby.host is Some && lobby.migratable),
        (LobbyKind::Replaceable.includes())(lobby) == (lobby.hosted && !lobby.pending
            && lobby.lobby_id is Some && lobby.migratable),
{
}

/// What the cache holds of a lobby is what is known of it; of a lobby that it does not hold, it
/// names nobody as the owner, has no members, and does not say that it is closed.
pub proof fn law_the_cache_answers_for_its_lobbies(steam: SteamCache, lobby: LobbyId, i: int)
    ensures
        0 <= i < steam.records@.len() && steam.records@[i].lobby == lobby && (forall|j: int|
            0 <= j < i ==> (#[trigger] steam.records@[j]).lobby != lobby) ==> {
            &&& steam.owner(lobby) == steam.records@[i].owner
            &&& steam.members(lobby) == steam.records@[i].members@
            &&& steam.closed(lobby) == steam.records@[i].closed
        },
        (forall|j: int|
            0 <= j < steam.records@.len() ==> (#[trigger] steam.records@[j]).lobby != lobby) ==> {
            &&& steam.owner(lobby).0 == 0
            &&& steam.members(lobby).len() == 0
            &&& !steam.closed(lobby)
        },
{
    let fits = world::record_of(lobby);
    if 0 <= i < steam.records@.len() && steam.records@[i].lobby == lobby && (forall|j: int|
        0 <= j < i ==> (#[trigger] steam.records@[j]).lobby != lobby) {
        lemma_first(steam.records@, fits, i);
    }
    if forall|j: int|
        0 <= j < steam.records@.len() ==> (#[trigger] steam.records@[j]).lobby != lobby {
        lists::lemma_none_kept(steam.records@, fits);
    }
}

/// A lobby that Steam created is the one that was asked for: this peer hosts it, as its own
/// authority, and its members may open sessions from then on.
pub proof fn law_a_created_lobby_is_hosted(
    lobbies: Seq<SteamLobby>,
    seats: Seq<SteamSeat>,
    steam: SteamCache,
    local: SteamId,
    lobby: LobbyId,
    i: int,
)
    requires
        0 <= i < lobbies.len(),
        lobbies[i].hosted && lobbies[i].requested,
        forall|j: int| 0 <= j < i ==> !((#[trigger] lobbies[j]).hosted && lobbies[j].requested),
    ensures
        events::reaction(
            lobbies,
            seats,
            steam,
            local,
            SteamEvent::LobbyCreated { result: 1, lobby },
        ) == seq![
            SteamEffect::SetLocalId(local.0 as u128),
            SteamEffect::SetHostUuid(local.0 as u128),
            SteamEffect::SetCurrentLobby(Some(lobby)),
            SteamEffect::PromoteHosted { entity: lobbies[i].entity, lobby_id: lobby },
        ],
{
    lemma_first(lobbies, world::requested_lobby(), i);
}

/// Where Steam could not create a lobby, each that was asked for goes, and no other; the result is
/// said once, last.
pub proof fn law_a_lobby_not_created_goes(
    lobbies: Seq<SteamLobby>,
    seats: Seq<SteamSeat>,
    steam: SteamCache,
    local: SteamId,
    result: u32,
    lobby: LobbyId,
)
    requires
        result != 1,
    ensures
        ({
            let effects = events::reaction(
                lobbies,
                seats,
                steam,
                local,
                SteamEvent::LobbyCreated { result, lobby },
            );
            &&& effects.len() > 0
            &&& effects.last() == SteamEffect::JoinFailed(JoinFailure::NotCreated(result))
            &&& forall|k: int|
                0 <= k < effects.len() - 1 ==> (#[trigger] effects[k]) is DespawnLobby
            &&& forall|entity: u64| #[trigger]
                effects.contains(SteamEffect::DespawnLobby(entity)) == exists|i: int|
                    0 <= i < lobbies.len() && (#[trigger] lobbies[i]).entity == entity
                        && lobbies[i].hosted && lobbies[i].requested
        }),
{
    let effects = events::reaction(
        lobbies,
        seats,
        steam,
        local,
        SteamEvent::LobbyCreated { result, lobby },
    );
    let fits = world::requested_lobby();
    let kept = lobbies.filter(fits);
    assert forall|entity: u64| #[trigger]
        effects.contains(SteamEffect::DespawnLobby(entity)) == exists|i: int|
            0 <= i < lobbies.len() && (#[trigger] lobbies[i]).entity == entity && lobbies[i].hosted
                && lobbies[i].requested by {
        if effects.contains(SteamEffect::DespawnLobby(entity)) {
            let k = choose|k: int|
                0 <= k < effects.len() && effects[k] == SteamEffect::DespawnLobby(entity);
            lists::lemma_kept_is_part(lobbies, fits, k);
            let i = choose|i: int| 0 <= i < lobbies.len() && lobbies[i] == kept[k];
            assert(lobbies[i].entity == entity && lobbies[i].hosted && lobbies[i].requested);
        }
        assert forall|i: int|
            0 <= i < lobbies.len() && (#[trigger] lobbies[i]).entity == entity && lobbies[i].hosted
                && lobbies[i].requested implies effects.contains(
            SteamEffect::DespawnLobby(entity),
        ) by {
            lists::lemma_fitting_is_kept(lobbies, fits, i);
            let k = choose|k: int| 0 <= k < kept.len() && kept[k] == lobbies[i];
            assert(effects[k] == SteamEffect::DespawnLobby(entity));
        }
    }
}

/// A lobby that is entered is pinned to whoever owns it then, who is the authority from then on;
/// one that Steam refused goes, with Steam's response; and where none waits to be entered, nothing
/// happens.
pub proof fn law_an_entered_lobby_is_pinned_to_its_owner(
    lobbies: Seq<SteamLobby>,
    seats: Seq<SteamSeat>,
    steam: SteamCache,
    local: SteamId,
    lobby: LobbyId,
    refused: Option<String>,
    i: int,
)
    ensures
        ({
            let effects = events::reaction(
                lobbies,
                seats,
                steam,
                local,
                SteamEvent::LobbyEnter { lobby, refused },
            );
            let waits = |lobby: SteamLobby|
                !lobby.hosted && lobby.pending && lobby.lobby_id is None;
            let first = 0 <= i < lobbies.len() && waits(lobbies[i]) && forall|j: int|
                0 <= j < i ==> !waits(#[trigger] lobbies[j]);
            let owner = steam.owner(lobby);
            &&& first && refused is None ==> effects == seq![
                SteamEffect::SetLocalId(local.0 as u128),
                SteamEffect::SetHostUuid(owner.0 as u128),
                SteamEffect::SetCurrentLobby(Some(lobby)),
                SteamEffect::AttachJoined {
                    entity: lobbies[i].entity,
                    lobby_id: lobby,
                    host: owner,
                },
            ]
            &&& first && refused is Some ==> effects == seq![
                SteamEffect::DespawnLobby(lobbies[i].entity),
                SteamEffect::JoinFailed(JoinFailure::Refused(refused->0)),
            ]
            &&& (forall|j: int| 0 <= j < lobbies.len() ==> !waits(#[trigger] lobbies[j]))
                ==> effects.len() == 0
        }),
{
    let fits = world::unentered_lobby();
    let waits = |lobby: SteamLobby| !lobby.hosted && lobby.pending && lobby.lobby_id is None;
    if 0 <= i < lobbies.len() && waits(lobbies[i]) && forall|j: int|
        0 <= j < i ==> !waits(#[trigger] lobbies[j]) {
        lemma_first(lobbies, fits, i);
    }
    if forall|j: int| 0 <= j < lobbies.len() ==> !waits(#[trigger] lobbies[j]) {
        lists::lemma_none_kept(lobbies, fits);
    }
}

/// A join from the overlay opens a lobby to be joined and asks Steam, unless this peer has entered
/// a lobby as a guest or is on the way into one.
pub proof fn law_a_guest_joins_no_second_lobby(
    lobbies: Seq<SteamLobby>,
    seats: Seq<SteamSeat>,
    steam: SteamCache,
    local: SteamId,
    lobby: LobbyId,
)
    ensures
        ({
            let effects = events::reaction(
                lobbies,
                seats,
                steam,
                local,
                SteamEvent::JoinRequested { lobby },
            );
            let guest = exists|i: int|
                0 <= i < lobbies.len() && !(#[trigger] lobbies[i]).hosted && (lobbies[i].pending
                    || (lobbies[i].lobby_id is Some && lobbies[i].host is Some));
            &&& guest ==> effects.len() == 0
            &&& !guest ==> effects == seq![
                SteamEffect::SpawnPendingLobby,
                SteamEffect::JoinLobby(lobby),
            ]
        }),
{
    let entered = world::entered_lobby();
    let joining = world::joining_lobby();
    lemma_found(lobbies, entered);
    lemma_found(lobbies, joining);
    if exists|i: int|
        0 <= i < lobbies.len() && !(#[trigger] lobbies[i]).hosted && (lobbies[i].pending || (
        lobbies[i].lobby_id is Some && lobbies[i].host is Some)) {
        let i = choose|i: int|
            0 <= i < lobbies.len() && !(#[trigger] lobbies[i]).hosted && (lobbies[i].pending || (
            lobbies[i].lobby_id is Some && lobbies[i].host is Some));
        assert(entered(lobbies[i]) || joining(lobbies[i]));
    }
    if world::first(lobbies, entered) is Some {
        let i = choose|i: int| 0 <= i < lobbies.len() && entered(#[trigger] lobbies[i]);
        assert(!lobbies[i].hosted);
    }
    if world::first(lobbies, joining) is Some {
        let i = choose|i: int| 0 <= i < lobbies.len() && joining(#[trigger] lobbies[i]);
        assert(!lobbies[i].hosted);
    }
}

/// A host opens a seat in its lobby for whoever enters it and has none, but not for itself; a peer
/// that does not host opens none.
pub proof fn law_a_host_seats_who_enters(
    lobbies: Seq<SteamLobby>,
    seats: Seq<SteamSeat>,
    steam: SteamCache,
    local: SteamId,
    lobby: LobbyId,
    user: SteamId,
    i: int,
)
    ensures
        ({
            let effects = events::reaction(
                lobbies,
                seats,
                steam,
                local,
                SteamEvent::MemberChanged { lobby, user, change: MemberChange::Entered },
            );
            &&& is_the_only_hosted(lobbies, i) && user != local && !is_seated(seats, user)
                ==> effects == seq![
                SteamEffect::SpawnSeat {
                    lobby: lobbies[i].entity,
                    steam_id: user,
                    player_uuid: user.0 as u128,
                },
            ]
            &&& is_seated(seats, user) || user == local || hosts_none(lobbies) ==> effects.len()
                == 0
        }),
{
    lemma_hosted(lobbies, i);
    lemma_seated(seats, user);
}

/// Whether a member that went was removed, rather than left.
pub open spec fn was_removed(change: MemberChange) -> bool {
    change == MemberChange::Kicked || change == MemberChange::Banned
}

/// A peer that Steam says is no longer in its lobby lets go of it: the session is closed, the
/// lobby is left and over. It was removed if it was kicked or banned, and has lost its host else.
pub proof fn law_a_removed_guest_lets_go(
    lobbies: Seq<SteamLobby>,
    seats: Seq<SteamSeat>,
    steam: SteamCache,
    local: SteamId,
    lobby: LobbyId,
    change: MemberChange,
    i: int,
)
    requires
        change != MemberChange::Entered,
    ensures
        ({
            let effects = events::reaction(
                lobbies,
                seats,
                steam,
                local,
                SteamEvent::MemberChanged { lobby, user: local, change },
            );
            &&& 0 <= i < lobbies.len() && is_entered(lobbies[i], lobby) && (forall|j: int|
                0 <= j < i ==> !is_entered(#[trigger] lobbies[j], lobby)) ==> effects == seq![
                SteamEffect::CloseSession(lobbies[i].host->0),
                SteamEffect::LeaveLobby(lobby),
                SteamEffect::EndLobby {
                    entity: lobbies[i].entity,
                    promoted: !lobbies[i].pending,
                    reason: if was_removed(change) {
                        LobbyLeftReason::Kicked
                    } else {
                        LobbyLeftReason::HostGone
                    },
                },
            ]
            &&& (forall|j: int| 0 <= j < lobbies.len() ==> !is_entered(#[trigger] lobbies[j], lobby))
                ==> effects.len() == 0
        }),
{
    let fits = events::entered_as(lobby);
    if 0 <= i < lobbies.len() && is_entered(lobbies[i], lobby) && (forall|j: int|
        0 <= j < i ==> !is_entered(#[trigger] lobbies[j], lobby)) {
        assert forall|j: int| 0 <= j < i implies !fits(#[trigger] lobbies[j]) by {
            assert(!is_entered(lobbies[j], lobby));
        }
        lemma_first(lobbies, fits, i);
    }
    if forall|j: int| 0 <= j < lobbies.len() ==> !is_entered(#[trigger] lobbies[j], lobby) {
        assert forall|j: int| 0 <= j < lobbies.len() implies !fits(#[trigger] lobbies[j]) by {
            assert(!is_entered(lobbies[j], lobby));
        }
        lists::lemma_none_kept(lobbies, fits);
    }
}

/// When a member goes, the host closes its seat. A player that was not connected yet, or had no
/// seat, is noted as gone besides: nothing else would say so.
pub proof fn law_a_host_unseats_who_goes(
    lobbies: Seq<SteamLobby>,
    seats: Seq<SteamSeat>,
    steam: SteamCache,
    local: SteamId,
    lobby: LobbyId,
    user: SteamId,
    change: MemberChange,
    hosted: int,
    i: int,
)
    requires
        change != MemberChange::Entered,
        user != local,
        is_the_only_hosted(lobbies, hosted),
    ensures
        ({
            let effects = events::reaction(
                lobbies,
                seats,
                steam,
                local,
                SteamEvent::MemberChanged { lobby, user, change },
            );
            let departed = SteamEffect::ParticipantDeparted {
                lobby: lobbies[hosted].entity,
                player_uuid: user.0 as u128,
            };
            let first = 0 <= i < seats.len() && seats[i].steam_id == user && forall|j: int|
                0 <= j < i ==> (#[trigger] seats[j]).steam_id != user;
            &&& first && !seats[i].pending ==> effects == seq![
                SteamEffect::DespawnSeat(seats[i].entity),
            ]
            &&& first && seats[i].pending ==> effects == seq![
                SteamEffect::DespawnSeat(seats[i].entity),
                departed,
            ]
            &&& (forall|j: int| 0 <= j < seats.len() ==> (#[trigger] seats[j]).steam_id != user)
                ==> effects == seq![departed]
        }),
{
    let fits = world::seat_of(user);
    lemma_hosted(lobbies, hosted);
    if 0 <= i < seats.len() && seats[i].steam_id == user && forall|j: int|
        0 <= j < i ==> (#[trigger] seats[j]).steam_id != user {
        lemma_first(seats, fits, i);
    }
    if forall|j: int| 0 <= j < seats.len() ==> (#[trigger] seats[j]).steam_id != user {
        lists::lemma_none_kept(seats, fits);
    }
}

/// When a guest's host goes, an active lobby that survives its host and was not closed waits for a
/// successor, or has one already where Steam names another owner; any other is over, for want of a
/// host.
pub proof fn law_a_guest_outlives_its_host_or_not(
    lobbies: Seq<SteamLobby>,
    seats: Seq<SteamSeat>,
    steam: SteamCache,
    local: SteamId,
    lobby: LobbyId,
    user: SteamId,
    change: MemberChange,
    i: int,
)
    requires
        change != MemberChange::Entered,
        user != local,
        hosts_none(lobbies),
        0 <= i < lobbies.len(),
        is_entered(lobbies[i], lobby) && lobbies[i].host == Some(user),
        forall|j: int|
            0 <= j < i ==> !(is_entered(#[trigger] lobbies[j], lobby) && lobbies[j].host == Some(
                user,
            )),
    ensures
        ({
            let effects = events::reaction(
                lobbies,
                seats,
                steam,
                local,
                SteamEvent::MemberChanged { lobby, user, change },
            );
            let survives = !lobbies[i].pending && lobbies[i].migratable && !steam.closed(lobby);
            &&& survives && steam.owner(lobby) == user ==> effects == seq![
                SteamEffect::HostLost(lobbies[i].entity),
            ]
            &&& survives && steam.owner(lobby) != user ==> effects.len() == 0
            &&& !survives ==> effects == seq![
                SteamEffect::CloseSession(user),
                SteamEffect::LeaveLobby(lobby),
                SteamEffect::EndLobby {
                    entity: lobbies[i].entity,
                    promoted: !lobbies[i].pending,
                    reason: LobbyLeftReason::HostGone,
                },
            ]
        }),
{
    let fits = events::entered_with(lobby, user);
    lemma_hosted(lobbies, i);
    assert forall|j: int| 0 <= j < i implies !fits(#[trigger] lobbies[j]) by {
        assert(!(is_entered(lobbies[j], lobby) && lobbies[j].host == Some(user)));
    }
    lemma_first(lobbies, fits, i);
}

/// When another guest goes, it is noted as gone in the lobby, and nothing else happens; nothing at
/// all does in a lobby that this peer is not in.
pub proof fn law_another_guest_is_noted_as_gone(
    lobbies: Seq<SteamLobby>,
    seats: Seq<SteamSeat>,
    steam: SteamCache,
    local: SteamId,
    lobby: LobbyId,
    user: SteamId,
    change: MemberChange,
    i: int,
)
    requires
        change != MemberChange::Entered,
        user != local,
        hosts_none(lobbies),
        forall|j: int|
            0 <= j < lobbies.len() ==> !(is_entered(#[trigger] lobbies[j], lobby)
                && lobbies[j].host == Some(user)),
    ensures
        ({
            let effects = events::reaction(
                lobbies,
                seats,
                steam,
                local,
                SteamEvent::MemberChanged { lobby, user, change },
            );
            &&& 0 <= i < lobbies.len() && is_entered(lobbies[i], lobby) && (forall|j: int|
                0 <= j < i ==> !is_entered(#[trigger] lobbies[j], lobby)) ==> effects == seq![
                SteamEffect::ParticipantDeparted {
                    lobby: lobbies[i].entity,
                    player_uuid: user.0 as u128,
                },
            ]
            &&& (forall|j: int| 0 <= j < lobbies.len() ==> !is_entered(#[trigger] lobbies[j], lobby))
                ==> effects.len() == 0
        }),
{
    let fits = events::entered_as(lobby);
    let with = events::entered_with(lobby, user);
    lemma_hosted(lobbies, i);
    assert forall|j: int| 0 <= j < lobbies.len() implies !with(#[trigger] lobbies[j]) by {
        assert(!(is_entered(lobbies[j], lobby) && lobbies[j].host == Some(user)));
    }
    lists::lemma_none_kept(lobbies, with);
    if 0 <= i < lobbies.len() && is_entered(lobbies[i], lobby) && (forall|j: int|
        0 <= j < i ==> !is_entered(#[trigger] lobbies[j], lobby)) {
        assert forall|j: int| 0 <= j < i implies !fits(#[trigger] lobbies[j]) by {
            assert(!is_entered(lobbies[j], lobby));
        }
        lemma_first(lobbies, fits, i);
    }
    if forall|j: int| 0 <= j < lobbies.len() ==> !is_entered(#[trigger] lobbies[j], lobby) {
        assert forall|j: int| 0 <= j < lobbies.len() implies !fits(#[trigger] lobbies[j]) by {
            assert(!is_entered(lobbies[j], lobby));
        }
        lists::lemma_none_kept(lobbies, fits);
    }
}

/// A host closes the seat of a player whose session failed, and no other.
pub proof fn law_a_failed_session_costs_its_seat(
    lobbies: Seq<SteamLobby>,
    seats: Seq<SteamSeat>,
    steam: SteamCache,
    local: SteamId,
    remote: SteamId,
    hosted: int,
    i: int,
)
    requires
        is_the_only_hosted(lobbies, hosted),
    ensures
        ({
            let effects = events::reaction(
                lobbies,
                seats,
                steam,
                local,
                SteamEvent::SessionFailed { remote: Some(remote) },
            );
            &&& 0 <= i < seats.len() && seats[i].steam_id == remote && (forall|j: int|
                0 <= j < i ==> (#[trigger] seats[j]).steam_id != remote) ==> effects == seq![
                SteamEffect::DespawnSeat(seats[i].entity),
            ]
            &&& (forall|j: int| 0 <= j < seats.len() ==> (#[trigger] seats[j]).steam_id != remote)
                ==> effects.len() == 0
        }),
{
    let fits = world::seat_of(remote);
    lemma_hosted(lobbies, hosted);
    if 0 <= i < seats.len() && seats[i].steam_id == remote && (forall|j: int|
        0 <= j < i ==> (#[trigger] seats[j]).steam_id != remote) {
        lemma_first(seats, fits, i);
    }
    if forall|j: int| 0 <= j < seats.len() ==> (#[trigger] seats[j]).steam_id != remote {
        lists::lemma_none_kept(seats, fits);
    }
}

/// Whether a lobby is one that this peer is active in as a guest of `host`.
pub open spec fn is_active_with(lobby: SteamLobby, host: SteamId) -> bool {
    !lobby.hosted && !lobby.pending && lobby.host == Some(host) && lobby.lobby_id is Some
}

/// When a guest's session with its host fails, a lobby that does not survive its host is over. One
/// that does has lost its host if the host is no longer a member of it, and goes on else. Nobody
/// else's session matters, nor one that nobody is named of.
pub proof fn law_a_failed_session_may_cost_the_host(
    lobbies: Seq<SteamLobby>,
    seats: Seq<SteamSeat>,
    steam: SteamCache,
    local: SteamId,
    remote: SteamId,
    i: int,
)
    requires
        hosts_none(lobbies),
    ensures
        ({
            let effects = events::reaction(
                lobbies,
                seats,
                steam,
                local,
                SteamEvent::SessionFailed { remote: Some(remote) },
            );
            let first = 0 <= i < lobbies.len() && is_active_with(lobbies[i], remote) && (forall|
                j: int,
            |
                0 <= j < i ==> !is_active_with(#[trigger] lobbies[j], remote));
            let stays = steam.members(lobbies[i].lobby_id->0).contains(remote);
            &&& first && !lobbies[i].migratable ==> effects == seq![
                SteamEffect::CloseSession(remote),
                SteamEffect::LeaveLobby(lobbies[i].lobby_id->0),
                SteamEffect::EndLobby {
                    entity: lobbies[i].entity,
                    promoted: true,
                    reason: LobbyLeftReason::HostGone,
                },
            ]
            &&& first && lobbies[i].migratable && stays ==> effects.len() == 0
            &&& first && lobbies[i].migratable && !stays ==> effects == seq![
                SteamEffect::HostLost(lobbies[i].entity),
            ]
            &&& (forall|j: int|
                0 <= j < lobbies.len() ==> !is_active_with(#[trigger] lobbies[j], remote))
                ==> effects.len() == 0
        }),
        events::reaction(
            lobbies,
            seats,
            steam,
            local,
            SteamEvent::SessionFailed { remote: None },
        ).len() == 0,
{
    let fits = events::active_with(remote);
    lemma_hosted(lobbies, i);
    if 0 <= i < lobbies.len() && is_active_with(lobbies[i], remote) && (forall|j: int|
        0 <= j < i ==> !is_active_with(#[trigger] lobbies[j], remote)) {
        assert forall|j: int| 0 <= j < i implies !fits(#[trigger] lobbies[j]) by {
            assert(!is_active_with(lobbies[j], remote));
        }
        lemma_first(lobbies, fits, i);
    }
    if forall|j: int| 0 <= j < lobbies.len() ==> !is_active_with(#[trigger] lobbies[j], remote) {
        assert forall|j: int| 0 <= j < lobbies.len() implies !fits(#[trigger] lobbies[j]) by {
            assert(!is_active_with(lobbies[j], remote));
        }
        lists::lemma_none_kept(lobbies, fits);
    }
}

/// A frame's events are reacted to in turn, each against the session as it stood.
pub proof fn law_events_are_reacted_to_in_turn(
    lobbies: Seq<SteamLobby>,
    seats: Seq<SteamSeat>,
    steam: SteamCache,
    local: SteamId,
    first: Seq<SteamEvent>,
    event: SteamEvent,
)
    ensures
        events::reactions(lobbies, seats, steam, local, first.push(event)) == events::reactions(
            lobbies,
            seats,
            steam,
            local,
            first,
        ) + events::reaction(lobbies, seats, steam, local, event),
        events::reactions(lobbies, seats, steam, local, Seq::empty()).len() == 0,
{
    assert(first.push(event).drop_last() =~= first);
}

/// A guest stays with its host while Steam names that host as the owner, or nobody; hosts where
/// Steam names this peer; and follows whoever else is named.
pub proof fn law_the_owner_is_the_host(pinned: SteamId, owner: SteamId, local: SteamId)
    requires
        pinned != local,
    ensures
        trust::change_of_owner(pinned, owner, local) == match owner.0 {
            0 => OwnerChange::Unchanged,
            raw => if raw == pinned.0 {
                OwnerChange::Unchanged
            } else if raw == local.0 {
                OwnerChange::Promote
            } else {
                OwnerChange::Follow(SteamId(raw))
            },
        },
{
}

/// Whether `player` is played by one of `members`, but for the one who went.
pub open spec fn is_played(members: Seq<SteamId>, gone: SteamId, player: u128) -> bool {
    exists|i: int|
        0 <= i < members.len() && (#[trigger] members[i]).0 == player && members[i] != gone
}

/// Whether `told` names exactly the players of `members`, but for the one who went.
pub open spec fn names_the_others(told: Seq<u128>, members: Seq<SteamId>, gone: SteamId) -> bool {
    forall|player: u128| #[trigger] told.contains(player) == is_played(members, gone, player)
}

proof fn lemma_others(members: Seq<SteamId>, gone: SteamId)
    ensures
        names_the_others(
            owner::players(members.filter(owner::but_for(gone))),
            members,
            gone,
        ),
{
    let fits = owner::but_for(gone);
    let rest = members.filter(fits);
    let told = owner::players(rest);
    assert forall|player: u128| #[trigger] told.contains(player) == is_played(
        members,
        gone,
        player,
    ) by {
        if told.contains(player) {
            let k = choose|k: int| 0 <= k < told.len() && told[k] == player;
            lists::lemma_kept_is_part(members, fits, k);
            let i = choose|i: int| 0 <= i < members.len() && members[i] == rest[k];
            assert(members[i].0 == player && members[i] != gone);
        }
        if is_played(members, gone, player) {
            let i = choose|i: int|
                0 <= i < members.len() && (#[trigger] members[i]).0 == player && members[i] != gone;
            lists::lemma_fitting_is_kept(members, fits, i);
            let k = choose|k: int| 0 <= k < rest.len() && rest[k] == members[i];
            assert(told[k] == player);
        }
    }
}

/// What a guest does about the owner that Steam names for its lobby. It stays while that is its
/// host or nobody, and leaves a lobby that its host closed. It hosts where it is named itself, and
/// opens a seat for every member that has none but for itself and the host that went; and it
/// follows whoever else is named. Either way the session is told of every member that is left.
pub proof fn law_a_named_owner_is_taken_at_its_word(
    lobby: SteamLobby,
    seats: Seq<SteamSeat>,
    steam: SteamCache,
    local: SteamId,
    step: OwnerStep,
)
    requires
        lobby.lobby_id is Some,
        lobby.host is Some,
        owner::owner_followed(lobby, seats, steam, local, step),
    ensures
        ({
            let id = lobby.lobby_id->0;
            let owner = steam.owner(id);
            let host = lobby.host->0;
            let moved = owner.0 != 0 && owner != host;
            &&& step is Stay == !moved
            &&& step is Leave == (moved && steam.closed(id))
            &&& step is Host == (moved && !steam.closed(id) && owner == local)
            &&& step is Follow == (moved && !steam.closed(id) && owner != local)
            &&& step matches OwnerStep::Leave(effects) ==> effects@ == seq![
                SteamEffect::CloseSession(host),
                SteamEffect::LeaveLobby(id),
                SteamEffect::EndLobby {
                    entity: lobby.entity,
                    promoted: !lobby.pending,
                    reason: LobbyLeftReason::HostGone,
                },
            ]
            &&& step matches OwnerStep::Host { previous, seats: opened, members } ==> {
                &&& previous == host
                &&& forall|m: SteamId| #[trigger]
                    opened@.contains(m) == (steam.members(id).contains(m) && m != host && m != local
                        && !is_seated(seats, m))
                &&& names_the_others(members@, steam.members(id), host)
            }
            &&& step matches OwnerStep::Follow { previous, owner: followed, members } ==> {
                &&& previous == host
                &&& followed == owner
                &&& names_the_others(members@, steam.members(id), host)
            }
        }),
{
    let id = lobby.lobby_id->0;
    let host = lobby.host->0;
    let all = steam.members(id);
    let members = all.filter(owner::but_for(host));
    lemma_others(all, host);
    if let OwnerStep::Host { previous, seats: opened, members: told } = step {
        let others = members.filter(owner::but_for(local));
        assert forall|m: SteamId| #[trigger]
            opened@.contains(m) == (all.contains(m) && m != host && m != local && !is_seated(
                seats,
                m,
            )) by {
            lemma_seated(seats, m);
            lemma_filtered(all, owner::but_for(host), m);
            lemma_filtered(members, owner::but_for(local), m);
            lemma_filtered(others, owner::unseated(seats), m);
        }
    }
}

pub(crate) proof fn lemma_filtered<T>(list: Seq<T>, fits: spec_fn(T) -> bool, item: T)
    ensures
        list.filter(fits).contains(item) == (list.contains(item) && fits(item)),
{
    let kept = list.filter(fits);
    if kept.contains(item) {
        let k = choose|k: int| 0 <= k < kept.len() && kept[k] == item;
        lists::lemma_kept_is_part(list, fits, k);
    }
    if list.contains(item) && fits(item) {
        let i = choose|i: int| 0 <= i < list.len() && list[i] == item;
        lists::lemma_fitting_is_kept(list, fits, i);
    }
}

/// A new host lets go of the one before it and of its pin, opens the seats, each under the name of
/// its player, and tells the session last; a follower lets go of the host before, pins the new one,
/// and tells the session.
pub proof fn law_a_new_host_opens_every_seat(
    entity: u64,
    local: SteamId,
    previous: SteamId,
    seats: Vec<SteamId>,
    members: Vec<u128>,
    owner: SteamId,
)
    ensures
        ({
            let effects = owner::step_effects(
                entity,
                local,
                OwnerStep::Host { previous, seats, members },
            );
            &&& effects.len() == seats@.len() + 3
            &&& effects[0] == SteamEffect::CloseSession(previous)
            &&& effects[1] == SteamEffect::UnpinHost(entity)
            &&& forall|k: int|
                0 <= k < seats@.len() ==> effects[k + 2] == (SteamEffect::SpawnSeat {
                    lobby: entity,
                    steam_id: #[trigger] seats@[k],
                    player_uuid: seats@[k].0 as u128,
                })
            &&& effects.last() == (SteamEffect::NewHostNamed {
                entity,
                previous: previous.0 as u128,
                new_host: local.0 as u128,
                members,
            })
        }),
        owner::step_effects(entity, local, OwnerStep::Follow { previous, owner, members }) == seq![
            SteamEffect::CloseSession(previous),
            SteamEffect::PinHost { entity, host: owner },
            SteamEffect::NewHostNamed {
                entity,
                previous: previous.0 as u128,
                new_host: owner.0 as u128,
                members,
            },
        ],
        owner::step_effects(entity, local, OwnerStep::Stay).len() == 0,
{
}

/// A host that Steam replaced closes every session, one for each seat, and then its lobby goes: it
/// has lost Steam. A host that Steam still names, or where Steam names nobody, does nothing.
pub proof fn law_a_replaced_host_closes_its_sessions(
    seats: Seq<SteamSeat>,
    steam: SteamCache,
    local: SteamId,
    earlier: Seq<SteamLobby>,
    lobby: SteamLobby,
)
    ensures
        ({
            let owner = steam.owner(lobby.lobby_id->0);
            let before = owner::all_replaced(seats, steam, local, earlier);
            let after = owner::all_replaced(seats, steam, local, earlier.push(lobby));
            let effects = after.skip(before.len() as int);
            let n = seats.len() as int;
            &&& after.len() >= before.len() && after.take(before.len() as int) == before
            &&& owner.0 == 0 || owner == local ==> effects.len() == 0
            &&& owner.0 != 0 && owner != local ==> {
                &&& effects.len() == n + 2
                &&& forall|k: int|
                    0 <= k < n ==> effects[k] == SteamEffect::CloseSession(
                        (#[trigger] seats[k]).steam_id,
                    )
                &&& effects[n] == SteamEffect::DespawnLobby(lobby.entity)
                &&& effects[n + 1] == SteamEffect::LobbyLeft(LobbyLeftReason::SignallingLost)
            }
            &&& owner::all_replaced(seats, steam, local, Seq::empty()).len() == 0
        }),
{
    assert(earlier.push(lobby).drop_last() =~= earlier);
    let before = owner::all_replaced(seats, steam, local, earlier);
    let after = owner::all_replaced(seats, steam, local, earlier.push(lobby));
    assert(after.take(before.len() as int) =~= before);
    assert(after.skip(before.len() as int) =~= owner::replaced(seats, steam, local, lobby));
}

/// A lobby that ends while it is still there goes, and says why: a session that was open was left,
/// and one that never opened could not be joined.
pub proof fn law_a_lobby_that_ends_says_why(entity: u64, promoted: bool, reason: LobbyLeftReason)
    ensures
        ({
            let effects = teardown::lobby_ended(entity, true, promoted, reason);
            &&& effects.len() == 2
            &&& effects[0] == SteamEffect::DespawnLobby(entity)
            &&& promoted ==> effects[1] == SteamEffect::LobbyLeft(reason)
            &&& !promoted ==> effects[1] == SteamEffect::JoinFailed(JoinFailure::EndedEarly(reason))
        }),
{
}

/// A lobby that goes is left on Steam, after the session with its host was closed, and its host is
/// forgotten; its members may open no more sessions, but those of another lobby still may.
pub proof fn law_a_lobby_that_goes_is_forgotten(
    lobby_id: LobbyId,
    host: Option<SteamId>,
    current_lobby: Option<LobbyId>,
)
    ensures
        ({
            let effects = teardown::forgotten(lobby_id, host, current_lobby);
            let n = effects.len() as int;
            &&& effects.last() == SteamEffect::ForgetHostUuid
            &&& effects.contains(SteamEffect::LeaveLobby(lobby_id))
            &&& (effects[0] == SteamEffect::CloseSession(host->0)) == (host is Some)
            &&& (effects[n - 2] == SteamEffect::SetCurrentLobby(None)) == (current_lobby == Some(
                lobby_id,
            ))
            &&& n == 2 + (if host is Some {
                1int
            } else {
                0int
            }) + (if current_lobby == Some(lobby_id) {
                1int
            } else {
                0int
            })
        }),
{
    let effects = teardown::forgotten(lobby_id, host, current_lobby);
    let at: int = if host is Some {
        1
    } else {
        0
    };
    assert(effects[at] == SteamEffect::LeaveLobby(lobby_id));
}

/// Whether `effects` close the session of a seat's player, and the seat after it.
pub open spec fn closes(effects: Seq<SteamEffect>, seat: SteamSeat) -> bool {
    exists|k: int|
        0 <= k < effects.len() - 1 && #[trigger] effects[k] == SteamEffect::CloseSession(
            seat.steam_id,
        ) && effects[k + 1] == SteamEffect::DespawnSeat(seat.entity)
}

/// Whether there is a seat under this name whose player is connected.
pub open spec fn is_connected(seats: Seq<SteamSeat>, entity: u64) -> bool {
    exists|i: int|
        0 <= i < seats.len() && !(#[trigger] seats[i]).pending && seats[i].entity == entity
}

proof fn lemma_seats_closed(seats: Seq<SteamSeat>)
    ensures
        forall|i: int|
            0 <= i < seats.len() && !(#[trigger] seats[i]).pending ==> closes(
                session::seats_closed(seats),
                seats[i],
            ),
        forall|k: int|
            0 <= k < session::seats_closed(seats).len() ==> (#[trigger] session::seats_closed(
                seats,
            )[k]) is CloseSession || session::seats_closed(seats)[k] is DespawnSeat,
        forall|k: int|
            0 <= k < session::seats_closed(seats).len() && (#[trigger] session::seats_closed(
                seats,
            )[k]) is DespawnSeat ==> is_connected(
                seats,
                session::seats_closed(seats)[k]->DespawnSeat_0,
            ),
    decreases seats.len(),
{
    if seats.len() > 0 {
        let earlier = seats.drop_last();
        lemma_seats_closed(earlier);
        let before = session::seats_closed(earlier);
        let after = session::seats_closed(seats);
        assert forall|i: int| 0 <= i < seats.len() && !(#[trigger] seats[i]).pending implies closes(
            after,
            seats[i],
        ) by {
            if i < earlier.len() {
                assert(earlier[i] == seats[i]);
                let k = choose|k: int|
                    0 <= k < before.len() - 1 && #[trigger] before[k] == SteamEffect::CloseSession(
                        seats[i].steam_id,
                    ) && before[k + 1] == SteamEffect::DespawnSeat(seats[i].entity);
                assert(after[k] == before[k] && after[k + 1] == before[k + 1]);
            } else {
                let k = before.len() as int;
                assert(after[k] == SteamEffect::CloseSession(seats[i].steam_id));
                assert(after[k + 1] == SteamEffect::DespawnSeat(seats[i].entity));
            }
        }
        assert forall|k: int|
            0 <= k < after.len() && (#[trigger] after[k]) is DespawnSeat implies is_connected(
            seats,
            after[k]->DespawnSeat_0,
        ) by {
            let entity = after[k]->DespawnSeat_0;
            if k < before.len() {
                assert(before[k] == after[k]);
                let i = choose|i: int|
                    0 <= i < earlier.len() && !(#[trigger] earlier[i]).pending && earlier[i].entity
                        == entity;
                assert(!seats[i].pending && seats[i].entity == entity);
            } else {
                let i = seats.len() - 1;
                assert(!seats[i].pending && seats[i].entity == entity);
            }
        }
    }
}

/// A host that leaves takes every pending lobby away, closes the session and the seat of every
/// connected player and of nobody else, and leaves the Steam lobby before its own lobby goes.
pub proof fn law_a_leaving_host_closes_every_seat(
    lobbies: Seq<SteamLobby>,
    seats: Seq<SteamSeat>,
    steam: SteamCache,
    i: int,
)
    requires
        0 <= i < lobbies.len(),
        lobbies[i].hosted && !lobbies[i].pending && lobbies[i].lobby_id is Some,
        forall|j: int|
            0 <= j < i ==> !((#[trigger] lobbies[j]).hosted && !lobbies[j].pending
                && lobbies[j].lobby_id is Some),
        forall|j: int|
            0 <= j < lobbies.len() ==> (#[trigger] lobbies[j]).hosted || lobbies[j].pending,
    ensures
        ({
            let effects = session::left(lobbies, seats, steam);
            let n = effects.len() as int;
            &&& n >= 2
            &&& effects[n - 2] == SteamEffect::LeaveLobby(lobbies[i].lobby_id->0)
            &&& effects[n - 1] == SteamEffect::DespawnLobby(lobbies[i].entity)
            &&& forall|s: int|
                0 <= s < seats.len() && !(#[trigger] seats[s]).pending ==> closes(
                    effects,
                    seats[s],
                )
            &&& forall|entity: u64| #[trigger]
                effects.contains(SteamEffect::DespawnSeat(entity)) ==> is_connected(seats, entity)
            &&& forall|j: int|
                0 <= j < lobbies.len() && (#[trigger] lobbies[j]).pending ==> effects.contains(
                    SteamEffect::DespawnLobby(lobbies[j].entity),
                )
        }),
{
    let effects = session::left(lobbies, seats, steam);
    let pending = session::pending_lobby();
    let waiting = lobbies.filter(pending);
    let gone = events::despawns(waiting);
    let closed = session::seats_closed(seats);
    let n = effects.len() as int;
    lemma_first(lobbies, session::active_on_steam(true), i);
    lists::lemma_none_kept(lobbies, session::active_on_steam(false));
    lemma_seats_closed(seats);
    assert(forall|k: int|
        0 <= k < closed.len() ==> #[trigger] closed[k] == effects[k + gone.len()]);
    assert forall|s: int| 0 <= s < seats.len() && !(#[trigger] seats[s]).pending implies closes(
        effects,
        seats[s],
    ) by {
        let k = choose|k: int|
            0 <= k < closed.len() - 1 && #[trigger] closed[k] == SteamEffect::CloseSession(
                seats[s].steam_id,
            ) && closed[k + 1] == SteamEffect::DespawnSeat(seats[s].entity);
        assert(effects[k + gone.len()] == closed[k]);
        assert(effects[k + gone.len() + 1] == closed[k + 1]);
    }
    assert forall|entity: u64| #[trigger]
        effects.contains(SteamEffect::DespawnSeat(entity)) implies is_connected(seats, entity) by {
        let wanted = SteamEffect::DespawnSeat(entity);
        let k = choose|k: int| 0 <= k < effects.len() && effects[k] == wanted;
        if k < gone.len() {
            assert(effects[k] == gone[k]);
        } else {
            assert(closed[k - gone.len()] == wanted);
        }
    }
    assert forall|j: int|
        0 <= j < lobbies.len() && (#[trigger] lobbies[j]).pending implies effects.contains(
        SteamEffect::DespawnLobby(lobbies[j].entity),
    ) by {
        lists::lemma_fitting_is_kept(lobbies, pending, j);
        let k = choose|k: int| 0 <= k < waiting.len() && waiting[k] == lobbies[j];
        assert(effects[k] == gone[k]);
    }
}

/// A guest that leaves closes the session with the owner of its lobby, leaves the lobby on Steam,
/// and lets go of it, in that order and after every pending lobby is gone.
pub proof fn law_a_leaving_guest_closes_its_session(
    lobbies: Seq<SteamLobby>,
    seats: Seq<SteamSeat>,
    steam: SteamCache,
    i: int,
)
    requires
        0 <= i < lobbies.len(),
        !lobbies[i].hosted && !lobbies[i].pending && lobbies[i].lobby_id is Some,
        forall|j: int|
            0 <= j < i ==> !(!(#[trigger] lobbies[j]).hosted && !lobbies[j].pending
                && lobbies[j].lobby_id is Some),
        hosts_none(lobbies),
    ensures
        ({
            let effects = session::left(lobbies, seats, steam);
            let n = effects.len() as int;
            &&& n >= 3
            &&& effects[n - 3] == SteamEffect::CloseSession(steam.owner(lobbies[i].lobby_id->0))
            &&& effects[n - 2] == SteamEffect::LeaveLobby(lobbies[i].lobby_id->0)
            &&& effects[n - 1] == SteamEffect::DespawnLobby(lobbies[i].entity)
            &&& forall|k: int| 0 <= k < n - 3 ==> (#[trigger] effects[k]) is DespawnLobby
        }),
{
    lemma_first(lobbies, session::active_on_steam(false), i);
    lists::lemma_none_kept(lobbies, session::active_on_steam(true));
}

/// Only a lobby that this peer hosts, that is active and on Steam, is marked as closed.
pub proof fn law_only_a_hosts_own_lobby_is_marked(lobbies: Seq<SteamLobby>, k: int)
    requires
        0 <= k < session::marked_closed(lobbies.filter(session::active_on_steam(true))).len(),
    ensures
        exists|i: int|
            0 <= i < lobbies.len() && (#[trigger] lobbies[i]).hosted && !lobbies[i].pending
                && lobbies[i].lobby_id is Some && session::marked_closed(
                lobbies.filter(session::active_on_steam(true)),
            )[k] == SteamEffect::MarkClosed(lobbies[i].lobby_id->0),
{
    let fits = session::active_on_steam(true);
    lists::lemma_kept_is_part(lobbies, fits, k);
    let i = choose|i: int| 0 <= i < lobbies.len() && lobbies[i] == lobbies.filter(fits)[k];
    assert(lobbies[i].hosted);
}

} // verus!
