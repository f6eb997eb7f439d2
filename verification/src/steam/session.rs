//! What a game asks for.
//!
//! Leaving a Steam session is more than letting go of the lobby: the P2P sessions are closed, then
//! the Steam lobby is left, and then the lobby goes. In that order: sessions into a lobby that was
//! left dangle until Steam times them out, and a peer that rejoins in between inherits a half-dead
//! connection.

use vstd::prelude::*;

use super::events;
use super::teardown::SteamEffect;
use super::world;
use super::world::{LobbyId, SteamCache, SteamLobby, SteamSeat, SteamWorld};
use crate::lists;

verus! {

/// The Steam app that is played when no other is named.
pub const DEFAULT_STEAM_APP_ID: u32 = 480;

/// The lobby data a host sets when it closes its lobby, so that members know not to take it over.
///
/// The members are told over their sessions too, but the host closes those and leaves the Steam
/// lobby a frame later, which can drop the message; Steam then hands the lobby to a member. Lobby
/// data goes through Steam's servers ahead of the host's departure, so that a member that sees the
/// host go can look at it first.
pub const CLOSED_LOBBY_KEY: &'static str = "bevy_ensemble_closed";

/// What joining the lobby asked for last comes to.
pub open spec fn join_effects(lobbies: Seq<SteamLobby>, requests: Seq<LobbyId>) -> Seq<SteamEffect> {
    if requests.len() > 0 && world::first(lobbies, client_lobby()) is None {
        seq![SteamEffect::SpawnPendingLobby, SteamEffect::JoinLobby(requests.last())]
    } else {
        Seq::empty()
    }
}

/// Join the lobby asked for last, unless this peer is in one as a client or on the way into one.
///
/// An active client lobby counts whether or not it has entered its Steam lobby.
pub fn join_requested_lobbies(world: &SteamWorld, requests: &Vec<LobbyId>) -> (effects: Vec<
    SteamEffect,
>)
    ensures
        effects@ == join_effects(world.lobbies@, requests@),
{
    let mut effects: Vec<SteamEffect> = Vec::new();
    if requests.len() > 0 && !has_client_lobby(&world.lobbies) {
        effects.push(SteamEffect::SpawnPendingLobby);
        effects.push(SteamEffect::JoinLobby(requests[requests.len() - 1]));
        assert(effects@ =~= seq![
            SteamEffect::SpawnPendingLobby,
            SteamEffect::JoinLobby(requests@.last()),
        ]);
    }
    effects
}

/// A lobby that this peer has joined or is joining.
pub open spec fn client_lobby() -> spec_fn(SteamLobby) -> bool {
    |lobby: SteamLobby| !lobby.hosted
}

fn has_client_lobby(lobbies: &Vec<SteamLobby>) -> (has: bool)
    ensures
        has == (world::first(lobbies@, client_lobby()) is Some),
{
    let mut i: usize = 0;
    proof {
        reveal(Seq::filter);
    }
    while i < lobbies.len()
        invariant
            i <= lobbies@.len(),
            lobbies@.take(i as int).filter(client_lobby()).len() == 0,
        decreases lobbies.len() - i,
    {
        proof {
            reveal(Seq::filter);
            assert(lobbies@.take(i + 1).drop_last() =~= lobbies@.take(i as int));
        }
        if !lobbies[i].hosted {
            proof {
                lists::lemma_first_of_filter(lobbies@, i as int, client_lobby());
            }
            return true;
        }
        i += 1;
    }
    assert(lobbies@.take(i as int) =~= lobbies@);
    false
}

/// A lobby that is pending.
pub open spec fn pending_lobby() -> spec_fn(SteamLobby) -> bool {
    |lobby: SteamLobby| lobby.pending
}

/// An active lobby on Steam, hosted or not.
pub open spec fn active_on_steam(hosted: bool) -> spec_fn(SteamLobby) -> bool {
    |lobby: SteamLobby| !lobby.pending && lobby.hosted == hosted && lobby.lobby_id is Some
}

/// The sessions of `seats` closed and the seats gone, in order.
pub open spec fn seats_closed(seats: Seq<SteamSeat>) -> Seq<SteamEffect>
    decreases seats.len(),
{
    if seats.len() == 0 {
        Seq::empty()
    } else if !seats.last().pending {
        seats_closed(seats.drop_last()) + seq![
            SteamEffect::CloseSession(seats.last().steam_id),
            SteamEffect::DespawnSeat(seats.last().entity),
        ]
    } else {
        seats_closed(seats.drop_last())
    }
}

/// What leaving the session comes to.
pub open spec fn left(
    lobbies: Seq<SteamLobby>,
    seats: Seq<SteamSeat>,
    steam: SteamCache,
) -> Seq<SteamEffect> {
    events::despawns(lobbies.filter(pending_lobby())) + (match world::first(
        lobbies,
        active_on_steam(true),
    ) {
        Some(lobby) => seats_closed(seats) + seq![
            SteamEffect::LeaveLobby(lobby.lobby_id->0),
            SteamEffect::DespawnLobby(lobby.entity),
        ],
        None => Seq::empty(),
    }) + (match world::first(lobbies, active_on_steam(false)) {
        Some(lobby) => seq![
            SteamEffect::CloseSession(steam.owner(lobby.lobby_id->0)),
            SteamEffect::LeaveLobby(lobby.lobby_id->0),
            SteamEffect::DespawnLobby(lobby.entity),
        ],
        None => Seq::empty(),
    })
}

fn find_active(lobbies: &Vec<SteamLobby>, hosted: bool) -> (found: Option<SteamLobby>)
    ensures
        found == world::first(lobbies@, active_on_steam(hosted)),
        found matches Some(lobby) ==> lobby.lobby_id is Some,
{
    let mut i: usize = 0;
    proof {
        reveal(Seq::filter);
    }
    while i < lobbies.len()
        invariant
            i <= lobbies@.len(),
            lobbies@.take(i as int).filter(active_on_steam(hosted)).len() == 0,
        decreases lobbies.len() - i,
    {
        proof {
            reveal(Seq::filter);
            assert(lobbies@.take(i + 1).drop_last() =~= lobbies@.take(i as int));
        }
        if !lobbies[i].pending && lobbies[i].hosted == hosted && lobbies[i].lobby_id.is_some() {
            proof {
                lists::lemma_first_of_filter(lobbies@, i as int, active_on_steam(hosted));
            }
            return Some(lobbies[i]);
        }
        i += 1;
    }
    assert(lobbies@.take(i as int) =~= lobbies@);
    None
}

fn push_pending(effects: &mut Vec<SteamEffect>, lobbies: &Vec<SteamLobby>)
    ensures
        final(effects)@ == old(effects)@ + events::despawns(lobbies@.filter(pending_lobby())),
{
    let mut i: usize = 0;
    proof {
        reveal(Seq::filter);
        assert(effects@ =~= old(effects)@ + events::despawns(
            lobbies@.take(0).filter(pending_lobby()),
        ));
    }
    while i < lobbies.len()
        invariant
            i <= lobbies@.len(),
            effects@ == old(effects)@ + events::despawns(
                lobbies@.take(i as int).filter(pending_lobby()),
            ),
        decreases lobbies.len() - i,
    {
        proof {
            reveal(Seq::filter);
            assert(lobbies@.take(i + 1).drop_last() =~= lobbies@.take(i as int));
            assert(lobbies@.take(i + 1).last() == lobbies@[i as int]);
        }
        if lobbies[i].pending {
            effects.push(SteamEffect::DespawnLobby(lobbies[i].entity));
        }
        assert(effects@ =~= old(effects)@ + events::despawns(
            lobbies@.take(i + 1).filter(pending_lobby()),
        ));
        i += 1;
    }
    assert(lobbies@.take(i as int) =~= lobbies@);
}

fn push_seats(effects: &mut Vec<SteamEffect>, seats: &Vec<SteamSeat>)
    ensures
        final(effects)@ == old(effects)@ + seats_closed(seats@),
{
    let mut i: usize = 0;
    assert(seats@.take(0) =~= Seq::<SteamSeat>::empty());
    assert(effects@ =~= old(effects)@ + seats_closed(seats@.take(0)));
    while i < seats.len()
        invariant
            i <= seats@.len(),
            effects@ == old(effects)@ + seats_closed(seats@.take(i as int)),
        decreases seats.len() - i,
    {
        proof {
            assert(seats@.take(i + 1).drop_last() =~= seats@.take(i as int));
            assert(seats@.take(i + 1).last() == seats@[i as int]);
        }
        if !seats[i].pending {
            effects.push(SteamEffect::CloseSession(seats[i].steam_id));
            effects.push(SteamEffect::DespawnSeat(seats[i].entity));
        }
        assert(effects@ =~= old(effects)@ + seats_closed(seats@.take(i + 1)));
        i += 1;
    }
    assert(seats@.take(i as int) =~= seats@);
}

/// Close the P2P sessions, leave the Steam lobby, then let go of the lobby.
pub fn leave_lobby(world: &SteamWorld, steam: &SteamCache, requests: usize) -> (effects: Vec<
    SteamEffect,
>)
    ensures
        effects@ == if requests > 0 {
            left(world.lobbies@, world.seats@, *steam)
        } else {
            Seq::empty()
        },
{
    let mut effects: Vec<SteamEffect> = Vec::new();
    if requests == 0 {
        return effects;
    }
    push_pending(&mut effects, &world.lobbies);
    if let Some(lobby) = find_active(&world.lobbies, true) {
        if let Some(lobby_id) = lobby.lobby_id {
            push_seats(&mut effects, &world.seats);
            effects.push(SteamEffect::LeaveLobby(lobby_id));
            effects.push(SteamEffect::DespawnLobby(lobby.entity));
        }
    }
    if let Some(lobby) = find_active(&world.lobbies, false) {
        if let Some(lobby_id) = lobby.lobby_id {
            effects.push(SteamEffect::CloseSession(steam.lobby_owner(lobby_id)));
            effects.push(SteamEffect::LeaveLobby(lobby_id));
            effects.push(SteamEffect::DespawnLobby(lobby.entity));
        }
    }
    assert(effects@ =~= left(world.lobbies@, world.seats@, *steam));
    effects
}

/// Every one of `lobbies` marked as closed, in order.
pub open spec fn marked_closed(lobbies: Seq<SteamLobby>) -> Seq<SteamEffect> {
    lobbies.map_values(|lobby: SteamLobby| SteamEffect::MarkClosed(lobby.lobby_id->0))
}

/// A host that ends its lobby for everyone marks it as closed on Steam, rather than letting Steam
/// hand it to a member when the host leaves a frame later.
pub fn close_lobby(world: &SteamWorld, requests: usize) -> (effects: Vec<SteamEffect>)
    ensures
        effects@ == if requests > 0 {
            marked_closed(world.lobbies@.filter(active_on_steam(true)))
        } else {
            Seq::empty()
        },
{
    let mut effects: Vec<SteamEffect> = Vec::new();
    if requests == 0 {
        return effects;
    }
    let mut i: usize = 0;
    proof {
        reveal(Seq::filter);
        assert(effects@ =~= marked_closed(world.lobbies@.take(0).filter(active_on_steam(true))));
    }
    while i < world.lobbies.len()
        invariant
            i <= world.lobbies@.len(),
            effects@ == marked_closed(
                world.lobbies@.take(i as int).filter(active_on_steam(true)),
            ),
        decreases world.lobbies.len() - i,
    {
        let lobby: SteamLobby = world.lobbies[i];
        proof {
            reveal(Seq::filter);
            assert(world.lobbies@.take(i + 1).drop_last() =~= world.lobbies@.take(i as int));
            assert(world.lobbies@.take(i + 1).last() == lobby);
        }
        if !lobby.pending && lobby.hosted {
            if let Some(lobby_id) = lobby.lobby_id {
                effects.push(SteamEffect::MarkClosed(lobby_id));
            }
        }
        assert(effects@ =~= marked_closed(
            world.lobbies@.take(i + 1).filter(active_on_steam(true)),
        ));
        i += 1;
    }
    assert(world.lobbies@.take(i as int) =~= world.lobbies@);
    effects
}

/// A host that ends its lobby marks it as closed, whichever lobby on Steam it hosts.
pub proof fn law_a_closing_host_marks_its_lobby(lobbies: Seq<SteamLobby>, i: int)
    requires
        0 <= i < lobbies.len(),
        !lobbies[i].pending,
        lobbies[i].hosted,
        lobbies[i].lobby_id is Some,
    ensures
        marked_closed(lobbies.filter(active_on_steam(true))).contains(
            SteamEffect::MarkClosed(lobbies[i].lobby_id->0),
        ),
{
    let hosted = lobbies.filter(active_on_steam(true));
    lists::lemma_fitting_is_kept(lobbies, active_on_steam(true), i);
    let k = choose|k: int| 0 <= k < hosted.len() && hosted[k] == lobbies[i];
    assert(marked_closed(hosted)[k] == SteamEffect::MarkClosed(lobbies[i].lobby_id->0));
}

/// A host closes every session before it leaves the Steam lobby.
pub proof fn law_sessions_close_first(
    lobbies: Seq<SteamLobby>,
    seats: Seq<SteamSeat>,
    steam: SteamCache,
    closing: int,
    leaving: int,
)
    requires
        world::first(lobbies, active_on_steam(false)) is None,
        0 <= closing < left(lobbies, seats, steam).len(),
        0 <= leaving < left(lobbies, seats, steam).len(),
        left(lobbies, seats, steam)[closing] is CloseSession,
        left(lobbies, seats, steam)[leaving] is LeaveLobby,
    ensures
        closing < leaving,
{
    let pending = events::despawns(lobbies.filter(pending_lobby()));
    let closed = seats_closed(seats);
    let all = left(lobbies, seats, steam);
    if leaving < pending.len() {
        assert(all[leaving] == pending[leaving]);
    } else if leaving < pending.len() + closed.len() {
        assert(all[leaving] == closed[leaving - pending.len()]);
        lemma_seats_are_not_left(seats, leaving - pending.len());
    }
}

proof fn lemma_seats_are_not_left(seats: Seq<SteamSeat>, i: int)
    requires
        0 <= i < seats_closed(seats).len(),
    ensures
        !(seats_closed(seats)[i] is LeaveLobby),
    decreases seats.len(),
{
    if seats.len() > 0 {
        let before = seats_closed(seats.drop_last());
        if i < before.len() {
            lemma_seats_are_not_left(seats.drop_last(), i);
        }
    }
}

} // verus!
