//! Following Steam's choice of lobby owner.
//!
//! Read every frame: a read of Steam's local cache costs nothing, and it does not depend on the
//! order in which Steam says that a member left and that the lobby changed.

use vstd::prelude::*;

use super::teardown;
use super::teardown::{tear_down_client_lobby, LobbyLeftReason, SteamEffect};
use super::trust;
use super::trust::{owner_change, replaced_as_host, OwnerChange};
use super::world;
use super::world::{
    LobbyId, LobbyKind, SteamCache, SteamId, SteamLobby, SteamSeat, SteamWorld,
};
use crate::lists;

verus! {

/// How long the next owner of a lobby is waited for once its host is lost, in nanoseconds.
///
/// A host that leaves is replaced at once. One that crashes or loses its connection is only
/// dropped once Steam's servers notice, which takes tens of seconds.
pub const SUCCESSOR_WITHIN: u64 = 60_000_000_000;

/// How long reaching the new owner may take, in nanoseconds. It opens a P2P session, as a join
/// does.
pub const REACH_WITHIN: u64 = 20_000_000_000;

/// How long a lobby that survives its host waits, in nanoseconds.
#[derive(Debug, Clone, Copy, PartialEq, Eq, Structural)]
pub struct HostMigratable {
    /// For a new owner.
    pub successor_within: u64,
    /// And then for the new owner to be reached.
    pub reach_within: u64,
}

/// How long every lobby on Steam waits for a new owner, and then to reach it: a minute, and twenty
/// seconds. A lobby that is created, or entered, is made to wait this long.
pub fn steam_host_migration() -> (migratable: HostMigratable)
    ensures
        migratable.successor_within == 60_000_000_000,
        migratable.reach_within == 20_000_000_000,
{
    HostMigratable { successor_within: SUCCESSOR_WITHIN, reach_within: REACH_WITHIN }
}

/// What a client does about the owner of its lobby.
#[derive(Debug)]
pub enum OwnerStep {
    /// Nothing: its host still owns it, or Steam names nobody.
    Stay,
    /// The host closed the lobby: it is left rather than taken over.
    Leave(Vec<SteamEffect>),
    /// This peer hosts now, and each of `seats` gets one: see [`step_effects`].
    Host { previous: SteamId, seats: Vec<SteamId>, members: Vec<u128> },
    /// `owner` hosts now: see [`step_effects`].
    Follow { previous: SteamId, owner: SteamId, members: Vec<u128> },
}

/// Members but for one.
pub open spec fn but_for(gone: SteamId) -> spec_fn(SteamId) -> bool {
    |member: SteamId| member != gone
}

/// The players that members play as.
pub open spec fn players(members: Seq<SteamId>) -> Seq<u128> {
    members.map_values(|member: SteamId| member.player())
}

/// A member that has no seat.
pub open spec fn unseated(seats: Seq<SteamSeat>) -> spec_fn(SteamId) -> bool {
    |member: SteamId| world::first(seats, world::known_as(member)) is None
}

/// What a client whose lobby is pinned does about the lobby's owner.
pub open spec fn owner_followed(
    lobby: SteamLobby,
    seats: Seq<SteamSeat>,
    steam: SteamCache,
    local: SteamId,
    step: OwnerStep,
) -> bool {
    let id = lobby.lobby_id->0;
    let pinned = lobby.host->0;
    let change = trust::change_of_owner(pinned, steam.owner(id), local);
    let members = steam.members(id).filter(but_for(pinned));
    if change == OwnerChange::Unchanged {
        step is Stay
    } else if steam.closed(id) {
        &&& step matches OwnerStep::Leave(effects)
        &&& effects@ == teardown::torn_down(lobby, LobbyLeftReason::HostGone)
    } else if change == OwnerChange::Promote {
        &&& step matches OwnerStep::Host { previous, seats: opened, members: told }
        &&& previous == pinned
        // A host opens a seat for every member, as it does for each one that enters.
        &&& opened@ == members.filter(but_for(local)).filter(unseated(seats))
        &&& told@ == players(members)
    } else {
        &&& step matches OwnerStep::Follow { previous, owner, members: told }
        &&& previous == pinned
        &&& owner == steam.owner(id)
        &&& told@ == players(members)
    }
}

/// Members but for one, in order.
fn all_but(members: &Vec<SteamId>, gone: SteamId) -> (rest: Vec<SteamId>)
    ensures
        rest@ == members@.filter(but_for(gone)),
{
    let mut rest: Vec<SteamId> = Vec::new();
    let mut i: usize = 0;
    proof {
        reveal(Seq::filter);
    }
    while i < members.len()
        invariant
            i <= members@.len(),
            rest@ == members@.take(i as int).filter(but_for(gone)),
        decreases members.len() - i,
    {
        proof {
            reveal(Seq::filter);
            assert(members@.take(i + 1).drop_last() =~= members@.take(i as int));
        }
        if members[i] != gone {
            rest.push(members[i]);
        }
        i += 1;
    }
    assert(members@.take(i as int) =~= members@);
    rest
}

fn without_seats(world: &SteamWorld, members: &Vec<SteamId>) -> (rest: Vec<SteamId>)
    ensures
        rest@ == members@.filter(unseated(world.seats@)),
{
    let mut rest: Vec<SteamId> = Vec::new();
    let mut i: usize = 0;
    proof {
        reveal(Seq::filter);
    }
    while i < members.len()
        invariant
            i <= members@.len(),
            rest@ == members@.take(i as int).filter(unseated(world.seats@)),
        decreases members.len() - i,
    {
        proof {
            reveal(Seq::filter);
            assert(members@.take(i + 1).drop_last() =~= members@.take(i as int));
        }
        if !world.is_known(members[i]) {
            rest.push(members[i]);
        }
        i += 1;
    }
    assert(members@.take(i as int) =~= members@);
    rest
}

fn players_of(members: &Vec<SteamId>) -> (uuids: Vec<u128>)
    ensures
        uuids@ == players(members@),
{
    let mut uuids: Vec<u128> = Vec::new();
    let mut i: usize = 0;
    while i < members.len()
        invariant
            i <= members@.len(),
            uuids@ =~= players(members@.take(i as int)),
        decreases members.len() - i,
    {
        uuids.push(members[i].player_uuid());
        i += 1;
    }
    assert(members@.take(i as int) =~= members@);
    uuids
}

/// What a client does about the owner Steam names for its lobby: it is promoted, or follows the
/// new owner, and either way the session is told of its new host with Steam's member list.
pub fn follow_lobby_owner(
    world: &SteamWorld,
    steam: &SteamCache,
    local: SteamId,
    lobby: &SteamLobby,
) -> (step: OwnerStep)
    requires
        lobby.lobby_id is Some,
        lobby.host is Some,
    ensures
        owner_followed(*lobby, world.seats@, *steam, local, step),
{
    let id: LobbyId = match lobby.lobby_id {
        Some(id) => id,
        None => return OwnerStep::Stay,
    };
    let pinned: SteamId = match lobby.host {
        Some(host) => host,
        None => return OwnerStep::Stay,
    };
    let owner: SteamId = steam.lobby_owner(id);
    let change = owner_change(pinned, owner, local);
    if change == OwnerChange::Unchanged {
        return OwnerStep::Stay;
    }
    if steam.lobby_is_closed(id) {
        let mut effects: Vec<SteamEffect> = Vec::new();
        tear_down_client_lobby(&mut effects, lobby, LobbyLeftReason::HostGone);
        assert(effects@ =~= teardown::torn_down(*lobby, LobbyLeftReason::HostGone));
        return OwnerStep::Leave(effects);
    }
    let members = all_but(&steam.lobby_members(id), pinned);
    let told = players_of(&members);
    if change == OwnerChange::Promote {
        let seats = without_seats(world, &all_but(&members, local));
        OwnerStep::Host { previous: pinned, seats, members: told }
    } else {
        OwnerStep::Follow { previous: pinned, owner, members: told }
    }
}

/// What this peer does about the owner of every lobby it is a client in that survives its host, in
/// order: each lobby, and the step taken about it.
pub fn follow_lobby_owners(world: &SteamWorld, steam: &SteamCache, local: SteamId) -> (steps: Vec<
    (u64, OwnerStep),
>)
    ensures
        ({
            let followed = world.lobbies@.filter(world::followed_lobby());
            &&& steps@.len() == followed.len()
            &&& forall|i: int|
                0 <= i < steps@.len() ==> {
                    &&& (#[trigger] steps@[i]).0 == followed[i].entity
                    &&& owner_followed(followed[i], world.seats@, *steam, local, steps@[i].1)
                }
        }),
{
    let followed = world.lobbies_of(LobbyKind::Followed);
    let mut steps: Vec<(u64, OwnerStep)> = Vec::new();
    let mut i: usize = 0;
    while i < followed.len()
        invariant
            i <= followed@.len(),
            followed@ == world.lobbies@.filter(world::followed_lobby()),
            steps@.len() == i,
            forall|j: int|
                0 <= j < i ==> {
                    &&& (#[trigger] steps@[j]).0 == followed@[j].entity
                    &&& owner_followed(followed@[j], world.seats@, *steam, local, steps@[j].1)
                },
        decreases followed.len() - i,
    {
        proof {
            lists::lemma_kept_is_part(world.lobbies@, world::followed_lobby(), i as int);
        }
        let step = follow_lobby_owner(world, steam, local, &followed[i]);
        steps.push((followed[i].entity, step));
        i += 1;
    }
    steps
}

/// Seats opened in a lobby, in order.
pub open spec fn seats_opened(lobby: u64, users: Seq<SteamId>) -> Seq<SteamEffect> {
    users.map_values(
        |user: SteamId|
            SteamEffect::SpawnSeat { lobby, steam_id: user, player_uuid: user.player() },
    )
}

/// What a step about the owner of the lobby `entity` comes to. Where there is a new host, the
/// session with the previous one is closed first, and the session is told of the new one last: by
/// then the lobby is pinned to it, or this peer hosts and every member has a seat.
pub open spec fn step_effects(entity: u64, local: SteamId, step: OwnerStep) -> Seq<SteamEffect> {
    match step {
        OwnerStep::Stay => Seq::empty(),
        OwnerStep::Leave(effects) => effects@,
        OwnerStep::Host { previous, seats, members } => seq![
            SteamEffect::CloseSession(previous),
            SteamEffect::UnpinHost(entity),
        ] + seats_opened(entity, seats@) + seq![
            SteamEffect::NewHostNamed {
                entity,
                previous: previous.player(),
                new_host: local.player(),
                members,
            },
        ],
        OwnerStep::Follow { previous, owner, members } => seq![
            SteamEffect::CloseSession(previous),
            SteamEffect::PinHost { entity, host: owner },
            SteamEffect::NewHostNamed {
                entity,
                previous: previous.player(),
                new_host: owner.player(),
                members,
            },
        ],
    }
}

/// Carry out a step about the owner of the lobby `entity`.
pub fn take_owner_step(entity: u64, local: SteamId, step: OwnerStep) -> (effects: Vec<SteamEffect>)
    ensures
        effects@ == step_effects(entity, local, step),
{
    match step {
        OwnerStep::Stay => Vec::new(),
        OwnerStep::Leave(effects) => effects,
        OwnerStep::Host { previous, seats, members } => {
            let mut effects: Vec<SteamEffect> = Vec::new();
            effects.push(SteamEffect::CloseSession(previous));
            effects.push(SteamEffect::UnpinHost(entity));
            let ghost opening = effects@;
            let mut i: usize = 0;
            while i < seats.len()
                invariant
                    i <= seats@.len(),
                    effects@ =~= opening + seats_opened(entity, seats@.take(i as int)),
                decreases seats.len() - i,
            {
                let user = seats[i];
                effects.push(
                    SteamEffect::SpawnSeat {
                        lobby: entity,
                        steam_id: user,
                        player_uuid: user.player_uuid(),
                    },
                );
                i += 1;
            }
            assert(seats@.take(i as int) =~= seats@);
            effects.push(
                SteamEffect::NewHostNamed {
                    entity,
                    previous: previous.player_uuid(),
                    new_host: local.player_uuid(),
                    members,
                },
            );
            assert(effects@ =~= step_effects(entity, local, step));
            effects
        },
        OwnerStep::Follow { previous, owner, members } => {
            let mut effects: Vec<SteamEffect> = Vec::new();
            effects.push(SteamEffect::CloseSession(previous));
            effects.push(SteamEffect::PinHost { entity, host: owner });
            effects.push(
                SteamEffect::NewHostNamed {
                    entity,
                    previous: previous.player_uuid(),
                    new_host: owner.player_uuid(),
                    members,
                },
            );
            assert(effects@ =~= step_effects(entity, local, step));
            effects
        },
    }
}

/// What a host does that Steam replaced as the owner of its lobby.
pub open spec fn replaced(
    seats: Seq<SteamSeat>,
    steam: SteamCache,
    local: SteamId,
    lobby: SteamLobby,
) -> Seq<SteamEffect> {
    let owner = steam.owner(lobby.lobby_id->0);
    if owner != SteamId(0) && owner != local {
        seats.map_values(|seat: SteamSeat| SteamEffect::CloseSession(seat.steam_id)) + seq![
            SteamEffect::DespawnLobby(lobby.entity),
            SteamEffect::LobbyLeft(LobbyLeftReason::SignallingLost),
        ]
    } else {
        Seq::empty()
    }
}

/// A host that Steam no longer names as owner was replaced, and its session ends: this peer's
/// connection to Steam was lost, and the members follow the new owner.
///
/// The seats go with the lobby, after it, so none of them is told it was kicked.
pub fn end_replaced_host(
    world: &SteamWorld,
    steam: &SteamCache,
    local: SteamId,
    lobby: &SteamLobby,
) -> (effects: Vec<SteamEffect>)
    requires
        lobby.lobby_id is Some,
    ensures
        effects@ == replaced(world.seats@, *steam, local, *lobby),
{
    let mut effects: Vec<SteamEffect> = Vec::new();
    let id: LobbyId = match lobby.lobby_id {
        Some(id) => id,
        None => return effects,
    };
    if !replaced_as_host(steam.lobby_owner(id), local) {
        return effects;
    }
    let mut i: usize = 0;
    while i < world.seats.len()
        invariant
            i <= world.seats@.len(),
            effects@ =~= world.seats@.take(i as int).map_values(
                |seat: SteamSeat| SteamEffect::CloseSession(seat.steam_id),
            ),
        decreases world.seats.len() - i,
    {
        effects.push(SteamEffect::CloseSession(world.seats[i].steam_id));
        i += 1;
    }
    assert(world.seats@.take(i as int) =~= world.seats@);
    effects.push(SteamEffect::DespawnLobby(lobby.entity));
    effects.push(SteamEffect::LobbyLeft(LobbyLeftReason::SignallingLost));
    assert(effects@ =~= replaced(world.seats@, *steam, local, *lobby));
    effects
}

/// What a host does about each of `lobbies`, in order.
pub open spec fn all_replaced(
    seats: Seq<SteamSeat>,
    steam: SteamCache,
    local: SteamId,
    lobbies: Seq<SteamLobby>,
) -> Seq<SteamEffect>
    decreases lobbies.len(),
{
    if lobbies.len() == 0 {
        Seq::empty()
    } else {
        all_replaced(seats, steam, local, lobbies.drop_last()) + replaced(
            seats,
            steam,
            local,
            lobbies.last(),
        )
    }
}

/// End every lobby this peer hosts that survives its host and that Steam gave to somebody else.
pub fn end_replaced_hosts(world: &SteamWorld, steam: &SteamCache, local: SteamId) -> (effects: Vec<
    SteamEffect,
>)
    ensures
        effects@ == all_replaced(
            world.seats@,
            *steam,
            local,
            world.lobbies@.filter(world::replaceable_lobby()),
        ),
{
    let hosted = world.lobbies_of(LobbyKind::Replaceable);
    let mut effects: Vec<SteamEffect> = Vec::new();
    let mut i: usize = 0;
    assert(hosted@.take(0) =~= Seq::<SteamLobby>::empty());
    while i < hosted.len()
        invariant
            i <= hosted@.len(),
            hosted@ == world.lobbies@.filter(world::replaceable_lobby()),
            effects@ == all_replaced(world.seats@, *steam, local, hosted@.take(i as int)),
        decreases hosted.len() - i,
    {
        proof {
            assert(hosted@.take(i + 1).drop_last() =~= hosted@.take(i as int));
            lists::lemma_kept_is_part(world.lobbies@, world::replaceable_lobby(), i as int);
        }
        let mut more = end_replaced_host(world, steam, local, &hosted[i]);
        effects.append(&mut more);
        i += 1;
    }
    assert(hosted@.take(i as int) =~= hosted@);
    effects
}

/// Where Steam names a new owner of a lobby that was not closed, the session with the previous host
/// is closed before anything else is done, trust moves with it — a follower's lobby is pinned to the
/// owner Steam names, a successor's to nobody — and the last thing done is to tell the session of
/// the owner Steam names, with the members that are left.
pub proof fn law_a_new_owner_is_followed_in_one_step(
    lobby: SteamLobby,
    seats: Seq<SteamSeat>,
    steam: SteamCache,
    local: SteamId,
    step: OwnerStep,
)
    requires
        lobby.lobby_id is Some,
        lobby.host is Some,
        owner_followed(lobby, seats, steam, local, step),
        trust::change_of_owner(lobby.host->0, steam.owner(lobby.lobby_id->0), local)
            != OwnerChange::Unchanged,
        !steam.closed(lobby.lobby_id->0),
    ensures
        ({
            let owner = steam.owner(lobby.lobby_id->0);
            let effects = step_effects(lobby.entity, local, step);
            &&& effects.len() >= 3
            &&& effects[0] == SteamEffect::CloseSession(lobby.host->0)
            &&& effects[1] == if owner == local {
                SteamEffect::UnpinHost(lobby.entity)
            } else {
                SteamEffect::PinHost { entity: lobby.entity, host: owner }
            }
            &&& effects.last() matches SteamEffect::NewHostNamed {
                entity,
                previous,
                new_host,
                members,
            }
            &&& entity == lobby.entity
            &&& previous == (lobby.host->0).player()
            &&& new_host == owner.player()
            &&& members@ == players(
                steam.members(lobby.lobby_id->0).filter(but_for(lobby.host->0)),
            )
        }),
{
}

/// Nobody takes over a lobby that its host closed.
pub proof fn law_a_closed_lobby_is_not_taken_over(
    lobby: SteamLobby,
    seats: Seq<SteamSeat>,
    steam: SteamCache,
    local: SteamId,
    step: OwnerStep,
)
    requires
        lobby.lobby_id is Some,
        lobby.host is Some,
        steam.closed(lobby.lobby_id->0),
        owner_followed(lobby, seats, steam, local, step),
    ensures
        !(step is Host) && !(step is Follow),
{
}

/// A successor tells its session of nobody who has gone: the previous host is among neither those
/// who get a seat nor those who are told of.
pub proof fn law_the_previous_host_is_left_out(
    lobby: SteamLobby,
    seats: Seq<SteamSeat>,
    steam: SteamCache,
    local: SteamId,
    step: OwnerStep,
    i: int,
)
    requires
        owner_followed(lobby, seats, steam, local, step),
        step is Host,
        0 <= i < step->seats@.len(),
    ensures
        step->seats@[i] != lobby.host->0,
        step->seats@[i] != local,
{
    let members = steam.members(lobby.lobby_id->0).filter(but_for(lobby.host->0));
    let others = members.filter(but_for(local));
    lists::lemma_kept_is_part(others, unseated(seats), i);
    let j = choose|j: int| 0 <= j < others.len() && others[j] == step->seats@[i];
    lists::lemma_kept_is_part(members, but_for(local), j);
    let k = choose|k: int| 0 <= k < members.len() && members[k] == others[j];
    lists::lemma_kept_is_part(
        steam.members(lobby.lobby_id->0),
        but_for(lobby.host->0),
        k,
    );
}

} // verus!
