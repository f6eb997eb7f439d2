//! What a peer's connection does to a session.

use vstd::prelude::*;

use super::events::Effect;
use super::outcome::{JoinFailure, LobbyLeftReason};
use super::trust::client_session_ends_with;
use super::world;
use super::world::{LobbyEntity, SeatEntity, SessionWorld};
use crate::lists;
use crate::sockets::route::PeerRoute;
use crate::sockets::socket::{
    EnsembleSocket, PeerChange, PeerState, RouteChange, SocketView, ICE_RESTART_TIMEOUT,
};

verus! {

/// A seat of the player at `peer`.
pub open spec fn seat_at(peer: u128) -> spec_fn(SeatEntity) -> bool {
    |seat: SeatEntity| seat.webrtc_uuid == peer
}

/// A client lobby that `peer` hosts.
pub open spec fn lobby_hosted_at(peer: u128) -> spec_fn(LobbyEntity) -> bool {
    |lobby: LobbyEntity| !lobby.hosted && lobby.host_uuid == Some(peer)
}

/// Whose liveness clock `peer` runs on: a host's seats for that peer, or a client's lobby if the
/// peer is its host. None for a peer this side does not track.
pub open spec fn liveness_entities(
    lobbies: Seq<LobbyEntity>,
    seats: Seq<SeatEntity>,
    peer: u128,
) -> Seq<u64> {
    if world::single_hosted(lobbies) is Some {
        seats.filter(seat_at(peer)).map_values(|seat: SeatEntity| seat.entity)
    } else {
        lobbies.filter(lobby_hosted_at(peer)).map_values(|lobby: LobbyEntity| lobby.entity)
    }
}

/// A lobby that outlives its host waits to be told who hosts it now.
pub open spec fn waits_for_successor(lobby: LobbyEntity) -> bool {
    !lobby.pending && lobby.migratable
}

/// What losing its host does to a client's lobby.
pub open spec fn host_lost(lobby: LobbyEntity) -> Effect {
    if waits_for_successor(lobby) {
        Effect::HostLost(lobby.entity)
    } else {
        Effect::DespawnLobby(lobby.entity)
    }
}

/// What a peer that went away does to a session.
pub open spec fn peer_gone(
    lobbies: Seq<LobbyEntity>,
    seats: Seq<SeatEntity>,
    peer: u128,
    failed: bool,
) -> Seq<Effect> {
    if world::single_hosted(lobbies) is Some {
        // One player is gone, and the lobby carries on without them.
        let seat = seats.filter(seat_at(peer));
        (if seat.len() > 0 {
            seq![Effect::DespawnSeat(seat[0].entity)]
        } else {
            Seq::empty()
        }) + (if failed {
            seq![Effect::JoinFailed(JoinFailure::PlayerUnreachable(peer))]
        } else {
            Seq::empty()
        })
    } else {
        // The host was the whole session. Anybody else was a connection this side never asked
        // for, and its ending changes nothing.
        let over = lobbies.filter(lobby_hosted_at(peer));
        let ended = over.map_values(|lobby: LobbyEntity| host_lost(lobby));
        if exists|i: int| 0 <= i < over.len() && !waits_for_successor(#[trigger] over[i]) {
            ended + seq![
                Effect::ForgetLocalId,
                Effect::ForgetHostUuid,
                Effect::LobbyLeft(LobbyLeftReason::HostGone),
            ] + (if failed {
                seq![
                    Effect::JoinFailed(
                        if exists|i: int| 0 <= i < over.len() && (#[trigger] over[i]).pending {
                            JoinFailure::HostUnreachable
                        } else {
                            JoinFailure::HostLost
                        },
                    ),
                ]
            } else {
                Seq::empty()
            })
        } else {
            ended
        }
    }
}

/// What a change of a peer's connection does to a session.
pub open spec fn peer_changed(
    lobbies: Seq<LobbyEntity>,
    seats: Seq<SeatEntity>,
    change: PeerChange,
) -> Seq<Effect> {
    match change.state {
        PeerState::Connecting => Seq::empty(),
        // Back from a restart, or never away: liveness runs on its normal clock.
        PeerState::Connected => liveness_entities(lobbies, seats, change.peer).map_values(
            |entity: u64| Effect::EndGrace(entity),
        ),
        // The liveness check must outlast the restart, or it ends the session the restart was
        // about to save.
        PeerState::Reconnecting => liveness_entities(lobbies, seats, change.peer).map_values(
            |entity: u64| Effect::GiveGrace { entity, extra: ICE_RESTART_TIMEOUT },
        ),
        PeerState::Disconnected => peer_gone(lobbies, seats, change.peer, false),
        PeerState::Failed => peer_gone(lobbies, seats, change.peer, true),
    }
}

/// What changes of peers' connections do to a session, in order.
pub open spec fn peers_changed(
    lobbies: Seq<LobbyEntity>,
    seats: Seq<SeatEntity>,
    changes: Seq<PeerChange>,
) -> Seq<Effect>
    decreases changes.len(),
{
    if changes.len() == 0 {
        Seq::empty()
    } else {
        peers_changed(lobbies, seats, changes.drop_last()) + peer_changed(
            lobbies,
            seats,
            changes.last(),
        )
    }
}

/// The seats of the player at `peer`, in order.
fn seats_at(seats: &Vec<SeatEntity>, peer: u128) -> (found: Vec<SeatEntity>)
    ensures
        found@ == seats@.filter(seat_at(peer)),
{
    let mut found: Vec<SeatEntity> = Vec::new();
    let mut i: usize = 0;
    proof {
        reveal(Seq::filter);
    }
    while i < seats.len()
        invariant
            i <= seats@.len(),
            found@ == seats@.take(i as int).filter(seat_at(peer)),
        decreases seats.len() - i,
    {
        proof {
            reveal(Seq::filter);
            assert(seats@.take(i + 1).drop_last() =~= seats@.take(i as int));
        }
        if seats[i].webrtc_uuid == peer {
            found.push(seats[i]);
        }
        i += 1;
    }
    assert(seats@.take(i as int) =~= seats@);
    found
}

/// The client lobbies that `peer` hosts, in order.
fn lobbies_hosted_at(lobbies: &Vec<LobbyEntity>, peer: u128) -> (found: Vec<LobbyEntity>)
    ensures
        found@ == lobbies@.filter(lobby_hosted_at(peer)),
{
    let mut found: Vec<LobbyEntity> = Vec::new();
    let mut i: usize = 0;
    proof {
        reveal(Seq::filter);
    }
    while i < lobbies.len()
        invariant
            i <= lobbies@.len(),
            found@ == lobbies@.take(i as int).filter(lobby_hosted_at(peer)),
        decreases lobbies.len() - i,
    {
        proof {
            reveal(Seq::filter);
            assert(lobbies@.take(i + 1).drop_last() =~= lobbies@.take(i as int));
        }
        if !lobbies[i].hosted && client_session_ends_with(lobbies[i].host_uuid, peer) {
            found.push(lobbies[i]);
        }
        i += 1;
    }
    assert(lobbies@.take(i as int) =~= lobbies@);
    found
}

/// Whose liveness clock `peer` runs on.
pub fn liveness_entity(world: &SessionWorld, peer: u128) -> (entities: Vec<u64>)
    ensures
        entities@ == liveness_entities(world.lobbies@, world.seats@, peer),
{
    let mut entities: Vec<u64> = Vec::new();
    if world.single_hosted().is_some() {
        let seats = seats_at(&world.seats, peer);
        let mut i: usize = 0;
        while i < seats.len()
            invariant
                i <= seats@.len(),
                entities@ =~= seats@.take(i as int).map_values(|seat: SeatEntity| seat.entity),
            decreases seats.len() - i,
        {
            entities.push(seats[i].entity);
            i += 1;
        }
        assert(seats@.take(i as int) =~= seats@);
    } else {
        let lobbies = lobbies_hosted_at(&world.lobbies, peer);
        let mut i: usize = 0;
        while i < lobbies.len()
            invariant
                i <= lobbies@.len(),
                entities@ =~= lobbies@.take(i as int).map_values(
                    |lobby: LobbyEntity| lobby.entity,
                ),
            decreases lobbies.len() - i,
        {
            entities.push(lobbies[i].entity);
            i += 1;
        }
        assert(lobbies@.take(i as int) =~= lobbies@);
    }
    entities
}

/// What a peer that went away does to a session.
///
/// The same teardown whether it failed or not; what differs is what it means and who is told.
fn peer_went_away(world: &SessionWorld, peer: u128, failed: bool) -> (effects: Vec<Effect>)
    ensures
        effects@ == peer_gone(world.lobbies@, world.seats@, peer, failed),
{
    let mut effects: Vec<Effect> = Vec::new();
    if world.single_hosted().is_some() {
        let seats = seats_at(&world.seats, peer);
        if seats.len() > 0 {
            effects.push(Effect::DespawnSeat(seats[0].entity));
        }
        if failed {
            effects.push(Effect::JoinFailed(JoinFailure::PlayerUnreachable(peer)));
        }
        assert(effects@ =~= peer_gone(world.lobbies@, world.seats@, peer, failed));
        return effects;
    }
    let over = lobbies_hosted_at(&world.lobbies, peer);
    let mut host_gone = false;
    let mut was_joining = false;
    let mut i: usize = 0;
    while i < over.len()
        invariant
            i <= over@.len(),
            effects@ =~= over@.take(i as int).map_values(|lobby: LobbyEntity| host_lost(lobby)),
            host_gone == exists|j: int| 0 <= j < i && !waits_for_successor(#[trigger] over@[j]),
            was_joining == exists|j: int| 0 <= j < i && (#[trigger] over@[j]).pending,
        decreases over.len() - i,
    {
        if !over[i].pending && over[i].migratable {
            assert(waits_for_successor(over@[i as int]));
            effects.push(Effect::HostLost(over[i].entity));
        } else {
            assert(!waits_for_successor(over@[i as int]));
            host_gone = true;
            if over[i].pending {
                was_joining = true;
            }
            effects.push(Effect::DespawnLobby(over[i].entity));
        }
        i += 1;
    }
    assert(over@.take(i as int) =~= over@);
    if host_gone {
        effects.push(Effect::ForgetLocalId);
        effects.push(Effect::ForgetHostUuid);
        effects.push(Effect::LobbyLeft(LobbyLeftReason::HostGone));
        if failed {
            effects.push(
                Effect::JoinFailed(
                    if was_joining {
                        JoinFailure::HostUnreachable
                    } else {
                        JoinFailure::HostLost
                    },
                ),
            );
        }
    }
    assert(effects@ =~= peer_gone(world.lobbies@, world.seats@, peer, failed));
    effects
}

/// What changes of peers' connections do to a session.
///
/// - On the host: a peer that goes loses its seat.
/// - On a client: the host going ends the lobby. Any other peer going away is ignored; it was
///   never this client's session.
/// - `Reconnecting` on either side ends nothing: the socket is restarting ICE with the data
///   channels kept, and it says `Connected` or `Failed` when that is settled.
pub fn poll_socket_peers(world: &SessionWorld, changes: &Vec<PeerChange>) -> (effects: Vec<Effect>)
    ensures
        effects@ == peers_changed(world.lobbies@, world.seats@, changes@),
{
    let mut effects: Vec<Effect> = Vec::new();
    let mut i: usize = 0;
    assert(changes@.take(0) =~= Seq::<PeerChange>::empty());
    while i < changes.len()
        invariant
            i <= changes@.len(),
            effects@ == peers_changed(world.lobbies@, world.seats@, changes@.take(i as int)),
        decreases changes.len() - i,
    {
        let change: PeerChange = changes[i];
        proof {
            assert(changes@.take(i + 1).drop_last() =~= changes@.take(i as int));
            assert(changes@.take(i + 1).last() == change);
        }
        let mut more = on_peer_change(world, change);
        effects.append(&mut more);
        i += 1;
    }
    assert(changes@.take(i as int) =~= changes@);
    effects
}

/// What one change of a peer's connection does to a session.
fn on_peer_change(world: &SessionWorld, change: PeerChange) -> (effects: Vec<Effect>)
    ensures
        effects@ == peer_changed(world.lobbies@, world.seats@, change),
{
    match change.state {
        PeerState::Connecting => Vec::new(),
        PeerState::Connected => {
            let entities = liveness_entity(world, change.peer);
            let mut effects: Vec<Effect> = Vec::new();
            let mut i: usize = 0;
            while i < entities.len()
                invariant
                    i <= entities@.len(),
                    effects@ =~= entities@.take(i as int).map_values(
                        |entity: u64| Effect::EndGrace(entity),
                    ),
                decreases entities.len() - i,
            {
                effects.push(Effect::EndGrace(entities[i]));
                i += 1;
            }
            assert(entities@.take(i as int) =~= entities@);
            effects
        },
        PeerState::Reconnecting => {
            let entities = liveness_entity(world, change.peer);
            let mut effects: Vec<Effect> = Vec::new();
            let mut i: usize = 0;
            while i < entities.len()
                invariant
                    i <= entities@.len(),
                    effects@ =~= entities@.take(i as int).map_values(
                        |entity: u64| Effect::GiveGrace { entity, extra: ICE_RESTART_TIMEOUT },
                    ),
                decreases entities.len() - i,
            {
                effects.push(
                    Effect::GiveGrace { entity: entities[i], extra: ICE_RESTART_TIMEOUT },
                );
                i += 1;
            }
            assert(entities@.take(i as int) =~= entities@);
            effects
        },
        PeerState::Disconnected => peer_went_away(world, change.peer, false),
        PeerState::Failed => peer_went_away(world, change.peer, true),
    }
}

/// An entity whose route is to be noted.
#[derive(Debug, Clone, Copy, PartialEq, Eq)]
pub struct RouteUpdate {
    pub entity: u64,
    pub route: PeerRoute,
}

/// A route to `peer`.
pub open spec fn route_to(peer: u128) -> spec_fn(RouteChange) -> bool {
    |settled: RouteChange| settled.peer == peer
}

/// The route to each peer that `routes` tell of.
pub open spec fn reported(routes: Seq<RouteChange>) -> spec_fn(u128) -> Option<PeerRoute> {
    |peer: u128|
        {
            let found = routes.filter(route_to(peer));
            if found.len() > 0 {
                Some(found[0].route)
            } else {
                None
            }
        }
}

/// What of the seats' routes is to be noted.
pub open spec fn seat_routes(
    seats: Seq<SeatEntity>,
    route_of: spec_fn(u128) -> Option<PeerRoute>,
) -> Seq<RouteUpdate>
    decreases seats.len(),
{
    if seats.len() == 0 {
        Seq::empty()
    } else {
        let before = seat_routes(seats.drop_last(), route_of);
        let seat = seats.last();
        match route_of(seat.webrtc_uuid) {
            Some(route) if seat.route != Some(route) => before.push(
                RouteUpdate { entity: seat.entity, route },
            ),
            _ => before,
        }
    }
}

/// What of the lobbies' routes is to be noted: a client has one connection that matters, the one
/// to its host.
pub open spec fn lobby_routes(
    lobbies: Seq<LobbyEntity>,
    route_of: spec_fn(u128) -> Option<PeerRoute>,
) -> Seq<RouteUpdate>
    decreases lobbies.len(),
{
    if lobbies.len() == 0 {
        Seq::empty()
    } else {
        let before = lobby_routes(lobbies.drop_last(), route_of);
        let lobby = lobbies.last();
        if lobby.hosted || lobby.host_uuid is None {
            before
        } else {
            match route_of(lobby.host_uuid->0) {
                Some(route) if lobby.route != Some(route) => before.push(
                    RouteUpdate { entity: lobby.entity, route },
                ),
                _ => before,
            }
        }
    }
}

/// What is to be noted when these are the routes the socket has settled on.
pub open spec fn reconciled(
    lobbies: Seq<LobbyEntity>,
    seats: Seq<SeatEntity>,
    route_of: spec_fn(u128) -> Option<PeerRoute>,
) -> Seq<RouteUpdate> {
    if world::single_hosted(lobbies) is Some {
        seat_routes(seats, route_of)
    } else {
        lobby_routes(lobbies, route_of)
    }
}

/// Bring the routes noted in the session in line with those the socket has settled on.
///
/// The socket tells of a route once, when it changes, and on a client that is before the lobby it
/// belongs on is active. So what is noted follows the socket's own record, and lands the moment
/// there is something to land on.
pub fn reconcile_routes(world: &SessionWorld, routes: &Vec<RouteChange>) -> (updates: Vec<
    RouteUpdate,
>)
    ensures
        updates@ == reconciled(world.lobbies@, world.seats@, reported(routes@)),
{
    let ghost route_of = reported(routes@);
    let mut updates: Vec<RouteUpdate> = Vec::new();
    let mut i: usize = 0;
    if world.single_hosted().is_some() {
        assert(world.seats@.take(0) =~= Seq::<SeatEntity>::empty());
        while i < world.seats.len()
            invariant
                i <= world.seats@.len(),
                route_of == reported(routes@),
                updates@ == seat_routes(world.seats@.take(i as int), route_of),
            decreases world.seats.len() - i,
        {
            let seat: SeatEntity = world.seats[i];
            proof {
                assert(world.seats@.take(i + 1).drop_last() =~= world.seats@.take(i as int));
                assert(world.seats@.take(i + 1).last() == seat);
            }
            if let Some(route) = find_route(routes, seat.webrtc_uuid) {
                if !is_route(seat.route, route) {
                    updates.push(RouteUpdate { entity: seat.entity, route });
                }
            }
            i += 1;
        }
        assert(world.seats@.take(i as int) =~= world.seats@);
        return updates;
    }
    assert(world.lobbies@.take(0) =~= Seq::<LobbyEntity>::empty());
    while i < world.lobbies.len()
        invariant
            i <= world.lobbies@.len(),
            route_of == reported(routes@),
            updates@ == lobby_routes(world.lobbies@.take(i as int), route_of),
        decreases world.lobbies.len() - i,
    {
        let lobby: LobbyEntity = world.lobbies[i];
        proof {
            assert(world.lobbies@.take(i + 1).drop_last() =~= world.lobbies@.take(i as int));
            assert(world.lobbies@.take(i + 1).last() == lobby);
        }
        if !lobby.hosted {
            if let Some(host) = lobby.host_uuid {
                if let Some(route) = find_route(routes, host) {
                    if !is_route(lobby.route, route) {
                        updates.push(RouteUpdate { entity: lobby.entity, route });
                    }
                }
            }
        }
        i += 1;
    }
    assert(world.lobbies@.take(i as int) =~= world.lobbies@);
    updates
}

fn is_route(noted: Option<PeerRoute>, route: PeerRoute) -> (same: bool)
    ensures
        same == (noted == Some(route)),
{
    match noted {
        Some(noted) => noted == route,
        None => false,
    }
}

fn find_route(routes: &Vec<RouteChange>, peer: u128) -> (route: Option<PeerRoute>)
    ensures
        route == reported(routes@)(peer),
{
    let mut i: usize = 0;
    proof {
        reveal(Seq::filter);
    }
    while i < routes.len()
        invariant
            i <= routes@.len(),
            routes@.take(i as int).filter(route_to(peer)).len() == 0,
        decreases routes.len() - i,
    {
        proof {
            reveal(Seq::filter);
            assert(routes@.take(i + 1).drop_last() =~= routes@.take(i as int));
        }
        if routes[i].peer == peer {
            proof {
                lists::lemma_first_of_filter(routes@, i as int, route_to(peer));
            }
            return Some(routes[i].route);
        }
        i += 1;
    }
    assert(routes@.take(i as int) =~= routes@);
    None
}

/// The route that a socket has settled on to each peer connected now.
pub open spec fn settled_on(socket: SocketView) -> spec_fn(u128) -> Option<PeerRoute> {
    |peer: u128|
        if is_connected(socket, peer) && socket.routes.contains_key(peer) {
            Some(socket.routes[peer])
        } else {
            None
        }
}

/// Whether a peer is connected, its path lost or not.
pub open spec fn is_connected(socket: SocketView, peer: u128) -> bool {
    socket.state_of(peer) == Some(PeerState::Connected) || socket.state_of(peer) == Some(
        PeerState::Reconnecting,
    )
}

/// The routes that a socket has settled on to `peers`, in order.
spec fn settled(socket: SocketView, peers: Seq<u128>) -> Seq<RouteChange>
    decreases peers.len(),
{
    if peers.len() == 0 {
        Seq::empty()
    } else {
        let before = settled(socket, peers.drop_last());
        if socket.routes.contains_key(peers.last()) {
            before.push(RouteChange { peer: peers.last(), route: socket.routes[peers.last()] })
        } else {
            before
        }
    }
}

/// The routes to `peers` tell of the route to each of them.
proof fn lemma_settled(socket: SocketView, peers: Seq<u128>, peer: u128)
    ensures
        reported(settled(socket, peers))(peer) == if peers.contains(peer)
            && socket.routes.contains_key(peer) {
            Some(socket.routes[peer])
        } else {
            None
        },
    decreases peers.len(),
{
    reveal(Seq::filter);
    if peers.len() > 0 {
        let earlier = peers.drop_last();
        lemma_settled(socket, earlier, peer);
        lists::lemma_pushed(earlier, peers.last(), peer);
        assert(peers =~= earlier.push(peers.last()));
        let before = settled(socket, earlier);
        if socket.routes.contains_key(peers.last()) {
            assert(settled(socket, peers).drop_last() =~= before);
        }
    }
}

/// What is to be noted of the routes of the peers connected now.
pub fn poll_peer_routes(world: &SessionWorld, socket: &EnsembleSocket) -> (updates: Vec<
    RouteUpdate,
>)
    ensures
        updates@ == reconciled(world.lobbies@, world.seats@, settled_on(socket@)),
{
    let peers = socket.connected_peers();
    let mut routes: Vec<RouteChange> = Vec::new();
    let mut i: usize = 0;
    assert(peers@.take(0) =~= Seq::<u128>::empty());
    while i < peers.len()
        invariant
            i <= peers@.len(),
            routes@ == settled(socket@, peers@.take(i as int)),
        decreases peers.len() - i,
    {
        let peer: u128 = peers[i];
        proof {
            assert(peers@.take(i + 1).drop_last() =~= peers@.take(i as int));
            assert(peers@.take(i + 1).last() == peer);
        }
        if let Some(route) = socket.route(peer) {
            routes.push(RouteChange { peer, route });
        }
        i += 1;
    }
    proof {
        assert(peers@.take(i as int) =~= peers@);
        assert forall|peer: u128| reported(routes@)(peer) == #[trigger] settled_on(socket@)(
            peer,
        ) by {
            lemma_settled(socket@, peers@, peer);
        }
        assert(reported(routes@) =~= settled_on(socket@));
    }
    reconcile_routes(world, &routes)
}

/// A client's session ends with its host, and with nobody else: any other peer going away changes
/// nothing.
pub proof fn law_only_the_host_ends_a_client_session(
    lobbies: Seq<LobbyEntity>,
    seats: Seq<SeatEntity>,
    change: PeerChange,
)
    requires
        world::single_hosted(lobbies) is None,
        forall|i: int|
            0 <= i < lobbies.len() ==> (#[trigger] lobbies[i]).hosted || lobbies[i].host_uuid
                != Some(change.peer),
    ensures
        peer_changed(lobbies, seats, change) == Seq::<Effect>::empty(),
{
    lemma_none_hosted_at(lobbies, change.peer);
    assert(peer_changed(lobbies, seats, change) =~= Seq::<Effect>::empty());
}

proof fn lemma_none_hosted_at(lobbies: Seq<LobbyEntity>, peer: u128)
    requires
        forall|i: int|
            0 <= i < lobbies.len() ==> (#[trigger] lobbies[i]).hosted || lobbies[i].host_uuid
                != Some(peer),
    ensures
        lobbies.filter(lobby_hosted_at(peer)) == Seq::<LobbyEntity>::empty(),
    decreases lobbies.len(),
{
    reveal(Seq::filter);
    if lobbies.len() > 0 {
        assert(lobbies[lobbies.len() - 1].hosted || lobbies[lobbies.len() - 1].host_uuid != Some(
            peer,
        ));
        lemma_none_hosted_at(lobbies.drop_last(), peer);
    }
}

/// A host's lobby outlives any of its players: whatever a connection does, the host loses at most
/// a seat.
pub proof fn law_a_hosted_lobby_survives_its_players(
    lobbies: Seq<LobbyEntity>,
    seats: Seq<SeatEntity>,
    change: PeerChange,
)
    requires
        world::single_hosted(lobbies) is Some,
    ensures
        forall|i: int|
            0 <= i < peer_changed(lobbies, seats, change).len() ==> !(#[trigger] peer_changed(
                lobbies,
                seats,
                change,
            )[i] is DespawnLobby) && !(peer_changed(lobbies, seats, change)[i] is LobbyLeft),
{
}

/// A path that is lost and found again ends nothing: what grace was given is taken back, of the
/// same.
pub proof fn law_a_restart_ends_nothing(
    lobbies: Seq<LobbyEntity>,
    seats: Seq<SeatEntity>,
    peer: u128,
)
    ensures
        ({
            let lost = peer_changed(
                lobbies,
                seats,
                PeerChange { peer, state: PeerState::Reconnecting },
            );
            let found = peer_changed(
                lobbies,
                seats,
                PeerChange { peer, state: PeerState::Connected },
            );
            &&& lost.len() == found.len()
            &&& forall|i: int|
                0 <= i < lost.len() ==> (#[trigger] lost[i] matches Effect::GiveGrace {
                    entity,
                    extra,
                } && extra == ICE_RESTART_TIMEOUT && found[i] == Effect::EndGrace(entity))
        }),
{
}

/// Only the connection to its host has a part in what a client notes: another peer's route changes
/// nothing.
pub proof fn law_a_client_notes_the_route_to_its_host(
    lobbies: Seq<LobbyEntity>,
    route_of: spec_fn(u128) -> Option<PeerRoute>,
    other: spec_fn(u128) -> Option<PeerRoute>,
)
    requires
        forall|i: int|
            0 <= i < lobbies.len() && (#[trigger] lobbies[i]).host_uuid is Some ==> route_of(
                lobbies[i].host_uuid->0,
            ) == other(lobbies[i].host_uuid->0),
    ensures
        lobby_routes(lobbies, route_of) == lobby_routes(lobbies, other),
    decreases lobbies.len(),
{
    if lobbies.len() > 0 {
        let earlier = lobbies.drop_last();
        assert forall|i: int|
            0 <= i < earlier.len() && (#[trigger] earlier[i]).host_uuid is Some implies route_of(
            earlier[i].host_uuid->0,
        ) == other(earlier[i].host_uuid->0) by {
            assert(earlier[i] == lobbies[i]);
        }
        law_a_client_notes_the_route_to_its_host(earlier, route_of, other);
        assert(lobbies.last() == lobbies[lobbies.len() - 1]);
    }
}

/// On a host, a peer that goes away loses the first seat it has, whether its connection ended or
/// failed; that it failed is said behind that, and is the only difference. A peer without a seat
/// loses none.
pub proof fn law_a_player_that_goes_loses_its_seat(
    lobbies: Seq<LobbyEntity>,
    seats: Seq<SeatEntity>,
    peer: u128,
    lobby: int,
    seat: int,
)
    requires
        0 <= lobby < lobbies.len(),
        forall|i: int|
            0 <= i < lobbies.len() ==> ((#[trigger] lobbies[i]).hosted && !lobbies[i].pending) == (i
                == lobby),
        0 <= seat <= seats.len(),
        seat < seats.len() ==> seats[seat].webrtc_uuid == peer,
        forall|i: int| 0 <= i < seat ==> (#[trigger] seats[i]).webrtc_uuid != peer,
    ensures
        ({
            let went = peer_changed(
                lobbies,
                seats,
                PeerChange { peer, state: PeerState::Disconnected },
            );
            let failed = peer_changed(
                lobbies,
                seats,
                PeerChange { peer, state: PeerState::Failed },
            );
            &&& seat < seats.len() ==> went == seq![Effect::DespawnSeat(seats[seat].entity)]
            &&& seat == seats.len() ==> went.len() == 0
            &&& failed == went.push(Effect::JoinFailed(JoinFailure::PlayerUnreachable(peer)))
        }),
{
    lemma_single(lobbies, lobby);
    assert(seats.take(seat).filter(seat_at(peer)).len() == 0) by {
        assert forall|i: int| 0 <= i < seats.take(seat).len() implies !seat_at(peer)(
            #[trigger] seats.take(seat)[i],
        ) by {
            assert(seats[i].webrtc_uuid != peer);
        }
        lists::lemma_none_kept(seats.take(seat), seat_at(peer));
    }
    if seat < seats.len() {
        lists::lemma_first_of_filter(seats, seat, seat_at(peer));
    } else {
        assert(seats.take(seat) =~= seats);
    }
    let went = peer_changed(lobbies, seats, PeerChange { peer, state: PeerState::Disconnected });
    let failed = peer_changed(lobbies, seats, PeerChange { peer, state: PeerState::Failed });
    assert(failed =~= went.push(Effect::JoinFailed(JoinFailure::PlayerUnreachable(peer))));
    if seat < seats.len() {
        assert(went =~= seq![Effect::DespawnSeat(seats[seat].entity)]);
    }
}

/// The one active lobby that is hosted is found.
proof fn lemma_single(lobbies: Seq<LobbyEntity>, at: int)
    requires
        0 <= at < lobbies.len(),
        forall|i: int|
            0 <= i < lobbies.len() ==> ((#[trigger] lobbies[i]).hosted && !lobbies[i].pending) == (i
                == at),
    ensures
        world::single_hosted(lobbies) == Some(lobbies[at].entity),
    decreases lobbies.len(),
{
    reveal(Seq::filter);
    let earlier = lobbies.drop_last();
    let last = lobbies.len() - 1;
    assert(lobbies[last].hosted && !lobbies[last].pending <==> last == at);
    if at == last {
        assert forall|i: int| 0 <= i < earlier.len() implies !world::hosted_lobby()(
            #[trigger] earlier[i],
        ) by {
            assert(earlier[i] == lobbies[i]);
        }
        lists::lemma_none_kept(earlier, world::hosted_lobby());
    } else {
        assert forall|i: int| 0 <= i < earlier.len() implies ((#[trigger] earlier[i]).hosted
            && !earlier[i].pending) == (i == at) by {
            assert(earlier[i] == lobbies[i]);
        }
        lemma_single(earlier, at);
    }
}

/// On a client, the host going away ends its lobby, or makes it wait for a successor if it is active
/// and survives its host. Where it ends, who this peer is and who hosts is forgotten, and that the
/// host is gone is said; where the connection failed, that is said behind everything else, and is
/// the only difference.
pub proof fn law_a_host_that_goes_takes_its_lobby_along(
    lobbies: Seq<LobbyEntity>,
    seats: Seq<SeatEntity>,
    peer: u128,
    at: int,
)
    requires
        forall|i: int| 0 <= i < lobbies.len() ==> !(#[trigger] lobbies[i]).hosted,
        0 <= at < lobbies.len(),
        lobbies[at].host_uuid == Some(peer),
        forall|i: int|
            0 <= i < lobbies.len() && i != at ==> (#[trigger] lobbies[i]).host_uuid != Some(peer),
    ensures
        ({
            let lobby = lobbies[at];
            let went = peer_changed(
                lobbies,
                seats,
                PeerChange { peer, state: PeerState::Disconnected },
            );
            let failed = peer_changed(
                lobbies,
                seats,
                PeerChange { peer, state: PeerState::Failed },
            );
            &&& !lobby.pending && lobby.migratable ==> went == seq![Effect::HostLost(lobby.entity)]
                && failed == went
            &&& lobby.pending || !lobby.migratable ==> went == seq![
                Effect::DespawnLobby(lobby.entity),
                Effect::ForgetLocalId,
                Effect::ForgetHostUuid,
                Effect::LobbyLeft(LobbyLeftReason::HostGone),
            ]
            &&& lobby.pending ==> failed == went.push(
                Effect::JoinFailed(JoinFailure::HostUnreachable),
            )
            &&& !lobby.pending && !lobby.migratable ==> failed == went.push(
                Effect::JoinFailed(JoinFailure::HostLost),
            )
        }),
{
    assert forall|i: int| 0 <= i < lobbies.len() implies !world::hosted_lobby()(
        #[trigger] lobbies[i],
    ) by {
        assert(!lobbies[i].hosted);
    }
    lists::lemma_none_kept(lobbies, world::hosted_lobby());
    lemma_one_hosted_at(lobbies, peer, at);
    let over = lobbies.filter(lobby_hosted_at(peer));
    assert(over =~= seq![lobbies[at]]);
    let went = peer_changed(lobbies, seats, PeerChange { peer, state: PeerState::Disconnected });
    let failed = peer_changed(lobbies, seats, PeerChange { peer, state: PeerState::Failed });
    let lobby = lobbies[at];
    if !lobby.pending && lobby.migratable {
        assert(waits_for_successor(over[0]));
        assert(went =~= seq![Effect::HostLost(lobby.entity)]);
        assert(failed =~= went);
    } else {
        assert(!waits_for_successor(over[0]));
        assert(went =~= seq![
            Effect::DespawnLobby(lobby.entity),
            Effect::ForgetLocalId,
            Effect::ForgetHostUuid,
            Effect::LobbyLeft(LobbyLeftReason::HostGone),
        ]);
        if lobby.pending {
            assert(over[0].pending);
            assert(failed =~= went.push(Effect::JoinFailed(JoinFailure::HostUnreachable)));
        } else {
            assert(failed =~= went.push(Effect::JoinFailed(JoinFailure::HostLost)));
        }
    }
}

proof fn lemma_one_hosted_at(lobbies: Seq<LobbyEntity>, peer: u128, at: int)
    requires
        0 <= at < lobbies.len(),
        !lobbies[at].hosted,
        lobbies[at].host_uuid == Some(peer),
        forall|i: int|
            0 <= i < lobbies.len() && i != at ==> (#[trigger] lobbies[i]).host_uuid != Some(peer),
    ensures
        lobbies.filter(lobby_hosted_at(peer)) == seq![lobbies[at]],
    decreases lobbies.len(),
{
    reveal(Seq::filter);
    let earlier = lobbies.drop_last();
    let last = lobbies.len() - 1;
    if at == last {
        assert forall|i: int| 0 <= i < earlier.len() implies !lobby_hosted_at(peer)(
            #[trigger] earlier[i],
        ) by {
            assert(earlier[i] == lobbies[i]);
        }
        lists::lemma_none_kept(earlier, lobby_hosted_at(peer));
        assert(lobbies.filter(lobby_hosted_at(peer)) =~= seq![lobbies[at]]);
    } else {
        assert(lobbies[last].host_uuid != Some(peer));
        assert forall|i: int| 0 <= i < earlier.len() && i != at implies (
        #[trigger] earlier[i]).host_uuid != Some(peer) by {
            assert(earlier[i] == lobbies[i]);
        }
        lemma_one_hosted_at(earlier, peer, at);
    }
}

/// What several changes do is what each does, one after the other.
pub proof fn law_changes_are_taken_in_turn(
    lobbies: Seq<LobbyEntity>,
    seats: Seq<SeatEntity>,
    earlier: Seq<PeerChange>,
    change: PeerChange,
)
    ensures
        peers_changed(lobbies, seats, earlier.push(change)) == peers_changed(
            lobbies,
            seats,
            earlier,
        ) + peer_changed(lobbies, seats, change),
        peers_changed(lobbies, seats, Seq::empty()).len() == 0,
{
    assert(earlier.push(change).drop_last() =~= earlier);
}

/// On a host, a path that is lost or found again concerns every seat of the peer it leads to, each
/// once and nobody else's: it may be silent for as long as a restart takes, and no longer once it
/// is back.
pub proof fn law_a_restart_is_waited_for(
    lobbies: Seq<LobbyEntity>,
    seats: Seq<SeatEntity>,
    peer: u128,
    lobby: int,
)
    requires
        0 <= lobby < lobbies.len(),
        forall|i: int|
            0 <= i < lobbies.len() ==> ((#[trigger] lobbies[i]).hosted && !lobbies[i].pending) == (i
                == lobby),
    ensures
        ({
            let lost = peer_changed(
                lobbies,
                seats,
                PeerChange { peer, state: PeerState::Reconnecting },
            );
            &&& forall|i: int|
                0 <= i < seats.len() && (#[trigger] seats[i]).webrtc_uuid == peer ==> lost.contains(
                    Effect::GiveGrace { entity: seats[i].entity, extra: ICE_RESTART_TIMEOUT },
                )
            &&& forall|k: int|
                0 <= k < lost.len() ==> (#[trigger] lost[k] matches Effect::GiveGrace {
                    entity,
                    extra,
                } && extra == ICE_RESTART_TIMEOUT && exists|i: int|
                    0 <= i < seats.len() && (#[trigger] seats[i]).webrtc_uuid == peer
                        && seats[i].entity == entity)
            &&& peer_changed(
                lobbies,
                seats,
                PeerChange { peer, state: PeerState::Connecting },
            ).len() == 0
        }),
{
    lemma_single(lobbies, lobby);
    let lost = peer_changed(lobbies, seats, PeerChange { peer, state: PeerState::Reconnecting });
    let kept = seats.filter(seat_at(peer));
    assert forall|i: int|
        0 <= i < seats.len() && (#[trigger] seats[i]).webrtc_uuid == peer implies lost.contains(
        Effect::GiveGrace { entity: seats[i].entity, extra: ICE_RESTART_TIMEOUT },
    ) by {
        lists::lemma_fitting_is_kept(seats, seat_at(peer), i);
        let k = choose|k: int| 0 <= k < kept.len() && kept[k] == seats[i];
        assert(lost[k] == Effect::GiveGrace {
            entity: seats[i].entity,
            extra: ICE_RESTART_TIMEOUT,
        });
    }
    assert forall|k: int| 0 <= k < lost.len() implies (#[trigger] lost[k] matches Effect::GiveGrace {
        entity,
        extra,
    } && extra == ICE_RESTART_TIMEOUT && exists|i: int|
        0 <= i < seats.len() && (#[trigger] seats[i]).webrtc_uuid == peer && seats[i].entity
            == entity) by {
        lists::lemma_kept_is_part(seats, seat_at(peer), k);
        let i = choose|i: int| 0 <= i < seats.len() && seats[i] == kept[k];
        assert(seats[i].webrtc_uuid == peer);
    }
}

/// On a host, what is noted of routes is what is known of the peer in each seat and not noted yet:
/// every such seat is updated, with the route to its own peer, and no other.
pub proof fn law_a_seat_notes_the_route_to_its_peer(
    seats: Seq<SeatEntity>,
    route_of: spec_fn(u128) -> Option<PeerRoute>,
)
    ensures
        forall|i: int|
            0 <= i < seats.len() && route_of((#[trigger] seats[i]).webrtc_uuid) is Some
                && seats[i].route != route_of(seats[i].webrtc_uuid) ==> seat_routes(
                seats,
                route_of,
            ).contains(
                RouteUpdate {
                    entity: seats[i].entity,
                    route: route_of(seats[i].webrtc_uuid)->0,
                },
            ),
        forall|k: int|
            0 <= k < seat_routes(seats, route_of).len() ==> {
                let update = #[trigger] seat_routes(seats, route_of)[k];
                exists|i: int|
                    0 <= i < seats.len() && (#[trigger] seats[i]).entity == update.entity
                        && route_of(seats[i].webrtc_uuid) == Some(update.route) && seats[i].route
                        != Some(update.route)
            },
    decreases seats.len(),
{
    if seats.len() > 0 {
        let earlier = seats.drop_last();
        let before = seat_routes(earlier, route_of);
        let after = seat_routes(seats, route_of);
        law_a_seat_notes_the_route_to_its_peer(earlier, route_of);
        assert forall|i: int|
            0 <= i < seats.len() && route_of((#[trigger] seats[i]).webrtc_uuid) is Some
                && seats[i].route != route_of(seats[i].webrtc_uuid) implies after.contains(
            RouteUpdate { entity: seats[i].entity, route: route_of(seats[i].webrtc_uuid)->0 },
        ) by {
            let update = RouteUpdate {
                entity: seats[i].entity,
                route: route_of(seats[i].webrtc_uuid)->0,
            };
            if i < earlier.len() {
                assert(earlier[i] == seats[i]);
                assert(before.contains(update));
                let k = choose|k: int| 0 <= k < before.len() && before[k] == update;
                assert(after[k] == update);
            } else {
                assert(after[after.len() - 1] == update);
            }
        }
        assert forall|k: int| 0 <= k < after.len() implies {
            let update = #[trigger] after[k];
            exists|i: int|
                0 <= i < seats.len() && (#[trigger] seats[i]).entity == update.entity && route_of(
                    seats[i].webrtc_uuid,
                ) == Some(update.route) && seats[i].route != Some(update.route)
        } by {
            if k < before.len() {
                let update = before[k];
                assert(after[k] == update);
                let i = choose|i: int|
                    0 <= i < earlier.len() && (#[trigger] earlier[i]).entity == update.entity
                        && route_of(earlier[i].webrtc_uuid) == Some(update.route)
                        && earlier[i].route != Some(update.route);
                assert(seats[i] == earlier[i]);
            } else {
                assert(seats[seats.len() - 1] == seats.last());
            }
        }
    }
}

/// On a client, a lobby it did not host notes the route to its host as soon as it is known, unless
/// it is noted already; nothing else is noted.
pub proof fn law_a_lobby_notes_the_route_to_its_host(
    lobby: LobbyEntity,
    route_of: spec_fn(u128) -> Option<PeerRoute>,
    host: u128,
    route: PeerRoute,
)
    requires
        !lobby.hosted,
        lobby.host_uuid == Some(host),
        route_of(host) == Some(route),
    ensures
        lobby.route != Some(route) ==> reconciled(seq![lobby], Seq::empty(), route_of) == seq![
            RouteUpdate { entity: lobby.entity, route },
        ],
        lobby.route == Some(route) ==> reconciled(seq![lobby], Seq::empty(), route_of).len() == 0,
{
    reveal_with_fuel(lobby_routes, 3);
    assert(seq![lobby].drop_last() =~= Seq::<LobbyEntity>::empty());
    assert forall|i: int| 0 <= i < 1 implies !world::hosted_lobby()(
        #[trigger] seq![lobby][i],
    ) by {}
    lists::lemma_none_kept(seq![lobby], world::hosted_lobby());
    assert(Seq::<RouteUpdate>::empty().push(RouteUpdate { entity: lobby.entity, route }) =~= seq![
        RouteUpdate { entity: lobby.entity, route },
    ]);
}

/// What a socket has settled on is known of the peers that are connected, lost path or not, and of
/// nobody else.
pub proof fn law_routes_are_known_of_connected_peers(socket: SocketView, peer: u128)
    ensures
        socket.routes.contains_key(peer) && socket.states.contains_key(peer) && (
        socket.states[peer] == PeerState::Connected || socket.states[peer]
            == PeerState::Reconnecting) ==> settled_on(socket)(peer) == Some(socket.routes[peer]),
        !socket.states.contains_key(peer) || !socket.routes.contains_key(peer) || (
        socket.states[peer] != PeerState::Connected && socket.states[peer]
            != PeerState::Reconnecting) ==> settled_on(socket)(peer) is None,
{
}

} // verus!
