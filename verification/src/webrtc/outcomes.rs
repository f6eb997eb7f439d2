//! What a session comes to when the server says something: which lobbies and seats there are
//! afterwards, and whom this peer is connected to.

use vstd::prelude::*;

use super::connection::LobbyEvent;
use super::events;
use super::events::{Effect, FrameView, Seated};
use super::outcome::{JoinFailure, LobbyLeftReason};
use super::session;
use super::world::{LobbyEntity, ParticipantEntity, SeatEntity};
use crate::lists;

verus! {

/// Whether a player has a seat, one that stood before the frame or one opened during it.
pub open spec fn is_seated(seats: Seq<SeatEntity>, seated: Seq<Seated>, player: u128) -> bool {
    ||| exists|i: int| 0 <= i < seats.len() && (#[trigger] seats[i]).player_uuid == player
    ||| exists|i: int| 0 <= i < seated.len() && (#[trigger] seated[i]).player_uuid == player
}

/// Whether there is a lobby under this name that this peer has joined or is joining.
pub open spec fn is_a_guest_in(lobbies: Seq<LobbyEntity>, entity: u64) -> bool {
    exists|i: int|
        0 <= i < lobbies.len() && (#[trigger] lobbies[i]).entity == entity && !lobbies[i].hosted
}

/// Whether there is a lobby under this name that the server was asked for and that is still
/// pending.
pub open spec fn awaits_an_answer(lobbies: Seq<LobbyEntity>, entity: u64) -> bool {
    exists|i: int|
        0 <= i < lobbies.len() && (#[trigger] lobbies[i]).entity == entity && lobbies[i].pending
            && (lobbies[i].requested || !lobbies[i].hosted)
}

/// Whether `effects` open a seat in `lobby` for each of `players`, in order, on a connection made
/// anew.
pub open spec fn opens_seats(
    effects: Seq<Effect>,
    lobby: u64,
    first_seat: int,
    players: Seq<u128>,
) -> bool {
    &&& effects.len() == 3 * players.len()
    &&& forall|t: int|
        0 <= t < players.len() ==> {
            &&& effects[3 * t] == Effect::DisconnectPeer(#[trigger] players[t])
            &&& effects[3 * t + 1] == Effect::ConnectPeer(players[t])
            &&& effects[3 * t + 2] == (Effect::SpawnSeat {
                seat: (first_seat + t) as u64,
                lobby,
                player_uuid: players[t],
            })
        }
}

proof fn lemma_seat_for(seats: Seq<SeatEntity>, seated: Seq<Seated>, player: u128)
    ensures
        events::seat_for(seats, seated, player) is Some == is_seated(seats, seated, player),
{
    let before = seats.filter(events::seat_of_player(player));
    let during = seated.filter(events::seated_for(player));
    if before.len() > 0 {
        lists::lemma_kept_is_part(seats, events::seat_of_player(player), 0);
        let i = choose|i: int| 0 <= i < seats.len() && seats[i] == before[0];
        assert(seats[i].player_uuid == player);
    } else if during.len() > 0 {
        lists::lemma_kept_is_part(seated, events::seated_for(player), 0);
        let i = choose|i: int| 0 <= i < seated.len() && seated[i] == during[0];
        assert(seated[i].player_uuid == player);
    }
    assert forall|i: int| 0 <= i < seats.len() && (#[trigger] seats[i]).player_uuid
        == player implies before.len() > 0 by {
        lists::lemma_fitting_is_kept(seats, events::seat_of_player(player), i);
    }
    assert forall|i: int| 0 <= i < seated.len() && (#[trigger] seated[i]).player_uuid
        == player implies during.len() > 0 by {
        lists::lemma_fitting_is_kept(seated, events::seated_for(player), i);
    }
}

/// A lobby that was asked for is hosted once the server has created it: under the id and the code
/// that the server gave it, by the peer that the server welcomed, which is its own authority.
/// Nothing else is promoted.
pub proof fn law_a_created_lobby_is_hosted_here(
    frame: FrameView,
    lobbies: Seq<LobbyEntity>,
    seats: Seq<SeatEntity>,
    participants: Seq<ParticipantEntity>,
    join_timeout: Option<u64>,
    me: u128,
    lobby_id: u64,
    code: String,
    i: int,
)
    requires
        0 <= i < lobbies.len(),
        lobbies[i].pending && lobbies[i].hosted && lobbies[i].requested,
        forall|j: int|
            0 <= j < i ==> !((#[trigger] lobbies[j]).pending && lobbies[j].hosted
                && lobbies[j].requested),
    ensures
        ({
            let welcomed = frame.applied(
                lobbies,
                seats,
                participants,
                join_timeout,
                LobbyEvent::Welcome { player_uuid: me },
            );
            let created = welcomed.0.applied(
                lobbies,
                seats,
                participants,
                join_timeout,
                LobbyEvent::LobbyCreated { lobby_id, code },
            );
            &&& welcomed.1 == seq![Effect::SetLocalId(me)]
            &&& created.1 == seq![
                Effect::SetLocalId(me),
                Effect::SetHostUuid(me),
                Effect::PromoteHosted { lobby: lobbies[i].entity, lobby_id, code },
            ]
            &&& created.0 == (FrameView { local_player_uuid: Some(me), ..frame })
        }),
{
    lists::lemma_first(lobbies, super::world::pending_host_lobby(), i);
}

/// A lobby that is being joined is joined once the server says so: under the id that the server
/// gave, with the host that the server named, who is the authority from then on. No other lobby is
/// touched, and nobody is connected to: a guest waits for its host's offer.
pub proof fn law_a_joined_lobby_has_the_named_host(
    frame: FrameView,
    lobbies: Seq<LobbyEntity>,
    seats: Seq<SeatEntity>,
    participants: Seq<ParticipantEntity>,
    join_timeout: Option<u64>,
    me: u128,
    lobby_id: u64,
    host_uuid: u128,
    existing_members: Vec<u128>,
    i: int,
)
    requires
        frame.local_player_uuid == Some(me),
        0 <= i < lobbies.len(),
        lobbies[i].pending && !lobbies[i].hosted,
        forall|j: int| 0 <= j < i ==> !((#[trigger] lobbies[j]).pending && !lobbies[j].hosted),
    ensures
        ({
            let (after, effects) = frame.applied(
                lobbies,
                seats,
                participants,
                join_timeout,
                LobbyEvent::LobbyJoined { lobby_id, host_uuid, existing_members },
            );
            &&& after == frame
            &&& effects == seq![
                Effect::SetLocalId(me),
                Effect::SetHostUuid(host_uuid),
                Effect::AttachJoined { lobby: lobbies[i].entity, lobby_id, host_uuid },
            ]
        }),
{
    lists::lemma_first(lobbies, super::world::pending_client_lobby(), i);
}

/// What nobody waits for changes no lobby: a lobby is neither promoted nor attached when none is
/// pending, and before the server has said who this peer is nothing happens at all.
pub proof fn law_an_unasked_answer_changes_no_lobby(
    frame: FrameView,
    lobbies: Seq<LobbyEntity>,
    seats: Seq<SeatEntity>,
    participants: Seq<ParticipantEntity>,
    join_timeout: Option<u64>,
    event: LobbyEvent,
)
    requires
        event is LobbyCreated || event is LobbyJoined,
    ensures
        ({
            let (after, effects) = frame.applied(
                lobbies,
                seats,
                participants,
                join_timeout,
                event,
            );
            &&& after == frame
            &&& frame.local_player_uuid is None || (forall|i: int|
                0 <= i < lobbies.len() ==> !(#[trigger] lobbies[i]).pending) ==> forall|k: int|
                0 <= k < effects.len() ==> (#[trigger] effects[k]) is SetLocalId
                    || effects[k] is SetHostUuid
            &&& frame.local_player_uuid is None ==> effects.len() == 0
        }),
{
    if forall|i: int| 0 <= i < lobbies.len() ==> !(#[trigger] lobbies[i]).pending {
        lists::lemma_none_kept(lobbies, super::world::pending_host_lobby());
        lists::lemma_none_kept(lobbies, super::world::pending_client_lobby());
    }
}

proof fn lemma_despawns(lobbies: Seq<LobbyEntity>, fits: spec_fn(LobbyEntity) -> bool, entity: u64)
    ensures
        events::despawns(lobbies.filter(fits)).contains(Effect::DespawnLobby(entity)) == exists|
            i: int,
        |
            0 <= i < lobbies.len() && (#[trigger] lobbies[i]).entity == entity && fits(lobbies[i]),
{
    let kept = lobbies.filter(fits);
    let gone = events::despawns(kept);
    if gone.contains(Effect::DespawnLobby(entity)) {
        let k = choose|k: int| 0 <= k < gone.len() && gone[k] == Effect::DespawnLobby(entity);
        lists::lemma_kept_is_part(lobbies, fits, k);
        let i = choose|i: int| 0 <= i < lobbies.len() && lobbies[i] == kept[k];
        assert(lobbies[i].entity == entity && fits(lobbies[i]));
    }
    assert forall|i: int|
        0 <= i < lobbies.len() && (#[trigger] lobbies[i]).entity == entity && fits(
            lobbies[i],
        ) implies gone.contains(Effect::DespawnLobby(entity)) by {
        lists::lemma_fitting_is_kept(lobbies, fits, i);
        let k = choose|k: int| 0 <= k < kept.len() && kept[k] == lobbies[i];
        assert(gone[k] == Effect::DespawnLobby(entity));
    }
}

/// A refusal takes away every lobby that waited for an answer, and no other; and who this peer and
/// its host are is forgotten. That is all it does.
pub proof fn law_a_refusal_takes_away_what_waited(
    frame: FrameView,
    lobbies: Seq<LobbyEntity>,
    seats: Seq<SeatEntity>,
    participants: Seq<ParticipantEntity>,
    join_timeout: Option<u64>,
    reason: String,
)
    ensures
        ({
            let (after, effects) = frame.applied(
                lobbies,
                seats,
                participants,
                join_timeout,
                LobbyEvent::LobbyError { reason },
            );
            &&& after == frame
            &&& effects.contains(Effect::ForgetLocalId)
            &&& effects.contains(Effect::ForgetHostUuid)
            &&& forall|entity: u64| #[trigger]
                effects.contains(Effect::DespawnLobby(entity)) == awaits_an_answer(lobbies, entity)
            &&& forall|k: int|
                0 <= k < effects.len() ==> {
                    ||| (#[trigger] effects[k]) == Effect::ForgetLocalId
                    ||| effects[k] == Effect::ForgetHostUuid
                    ||| effects[k] is DespawnLobby
                }
        }),
{
    let effects = frame.applied(
        lobbies,
        seats,
        participants,
        join_timeout,
        LobbyEvent::LobbyError { reason },
    ).1;
    let hosted = events::despawns(lobbies.filter(super::world::pending_host_lobby()));
    let joined = events::despawns(lobbies.filter(super::world::pending_client_lobby()));
    assert(effects[0] == Effect::ForgetLocalId && effects[1] == Effect::ForgetHostUuid);
    assert forall|entity: u64| #[trigger]
        effects.contains(Effect::DespawnLobby(entity)) == awaits_an_answer(lobbies, entity) by {
        let gone = Effect::DespawnLobby(entity);
        lemma_despawns(lobbies, super::world::pending_host_lobby(), entity);
        lemma_despawns(lobbies, super::world::pending_client_lobby(), entity);
        if effects.contains(gone) {
            let k = choose|k: int| 0 <= k < effects.len() && effects[k] == gone;
            if k < 2 + hosted.len() {
                assert(hosted[k - 2] == gone);
            } else {
                assert(joined[k - 2 - hosted.len()] == gone);
            }
        }
        if hosted.contains(gone) {
            let k = choose|k: int| 0 <= k < hosted.len() && hosted[k] == gone;
            assert(effects[k + 2] == gone);
        }
        if joined.contains(gone) {
            let k = choose|k: int| 0 <= k < joined.len() && joined[k] == gone;
            assert(effects[k + 2 + hosted.len()] == gone);
        }
    }
}

/// A host opens a seat in its lobby for a player that joins and has none, and connects to them; a
/// player that has one gets no second, and a peer that does not host does nothing.
pub proof fn law_a_host_seats_who_joins(
    frame: FrameView,
    lobbies: Seq<LobbyEntity>,
    seats: Seq<SeatEntity>,
    participants: Seq<ParticipantEntity>,
    join_timeout: Option<u64>,
    player_uuid: u128,
)
    requires
        frame.next_seat < u64::MAX,
    ensures
        ({
            let (after, effects) = frame.applied(
                lobbies,
                seats,
                participants,
                join_timeout,
                LobbyEvent::PlayerJoined { player_uuid },
            );
            if frame.hosted is Some && !is_seated(seats, frame.seated, player_uuid) {
                &&& effects == seq![
                    Effect::ConnectPeer(player_uuid),
                    Effect::SpawnSeat {
                        seat: frame.next_seat,
                        lobby: frame.hosted->0,
                        player_uuid,
                    },
                ]
                &&& is_seated(seats, after.seated, player_uuid)
                &&& after.next_seat == frame.next_seat + 1
            } else {
                effects.len() == 0 && after == frame
            }
        }),
{
    lemma_seat_for(seats, frame.seated, player_uuid);
    if frame.hosted is Some && !is_seated(seats, frame.seated, player_uuid) {
        let seated = frame.with_seat(player_uuid).seated;
        assert(seated[frame.seated.len() as int].player_uuid == player_uuid);
    }
}

/// When a player leaves, the host closes that player's seat, and nothing else happens: the seat is
/// the one that stood before the frame, or else the one that was opened during it.
pub proof fn law_a_host_unseats_who_leaves(
    frame: FrameView,
    lobbies: Seq<LobbyEntity>,
    seats: Seq<SeatEntity>,
    participants: Seq<ParticipantEntity>,
    join_timeout: Option<u64>,
    player_uuid: u128,
    i: int,
)
    requires
        frame.hosted is Some,
        ({
            ||| {
                &&& 0 <= i < seats.len()
                &&& seats[i].player_uuid == player_uuid
                &&& forall|j: int| 0 <= j < i ==> (#[trigger] seats[j]).player_uuid != player_uuid
            }
            ||| {
                &&& forall|j: int|
                    0 <= j < seats.len() ==> (#[trigger] seats[j]).player_uuid != player_uuid
                &&& 0 <= i < frame.seated.len()
                &&& frame.seated[i].player_uuid == player_uuid
                &&& forall|j: int|
                    0 <= j < i ==> (#[trigger] frame.seated[j]).player_uuid != player_uuid
            }
        }),
    ensures
        ({
            let (after, effects) = frame.applied(
                lobbies,
                seats,
                participants,
                join_timeout,
                LobbyEvent::PlayerLeft { player_uuid },
            );
            let stood = 0 <= i < seats.len() && seats[i].player_uuid == player_uuid;
            let seat = if stood {
                seats[i].entity
            } else {
                frame.seated[i].seat
            };
            &&& effects == seq![Effect::DespawnSeat(seat)]
            &&& forall|opened: Seated| #[trigger]
                after.seated.contains(opened) == (frame.seated.contains(opened) && opened.seat
                    != seat)
            &&& after.hosted == frame.hosted
        }),
{
    let stood = 0 <= i < seats.len() && seats[i].player_uuid == player_uuid;
    if stood {
        lists::lemma_first(seats, events::seat_of_player(player_uuid), i);
    } else {
        lists::lemma_none_kept(seats, events::seat_of_player(player_uuid));
        lists::lemma_first(frame.seated, events::seated_for(player_uuid), i);
    }
    let seat = if stood {
        seats[i].entity
    } else {
        frame.seated[i].seat
    };
    let rest = frame.seated.filter(events::seated_elsewhere(seat));
    assert forall|opened: Seated| #[trigger]
        rest.contains(opened) == (frame.seated.contains(opened) && opened.seat != seat) by {
        if rest.contains(opened) {
            let k = choose|k: int| 0 <= k < rest.len() && rest[k] == opened;
            lists::lemma_kept_is_part(frame.seated, events::seated_elsewhere(seat), k);
        }
        if frame.seated.contains(opened) && opened.seat != seat {
            let k = choose|k: int| 0 <= k < frame.seated.len() && frame.seated[k] == opened;
            lists::lemma_fitting_is_kept(frame.seated, events::seated_elsewhere(seat), k);
        }
    }
}

/// A player that leaves and has no seat here is only noted as gone, in the lobby this peer is in;
/// without a lobby there is nowhere to note it. No seat is touched.
pub proof fn law_who_leaves_without_a_seat_is_noted(
    frame: FrameView,
    lobbies: Seq<LobbyEntity>,
    seats: Seq<SeatEntity>,
    participants: Seq<ParticipantEntity>,
    join_timeout: Option<u64>,
    player_uuid: u128,
)
    requires
        frame.hosted is None || !is_seated(seats, frame.seated, player_uuid),
    ensures
        ({
            let (after, effects) = frame.applied(
                lobbies,
                seats,
                participants,
                join_timeout,
                LobbyEvent::PlayerLeft { player_uuid },
            );
            &&& after == frame
            &&& lobbies.len() == 0 ==> effects.len() == 0
            &&& lobbies.len() > 0 ==> effects == seq![
                Effect::ParticipantDeparted { lobby: lobbies[0].entity, player_uuid },
            ]
        }),
{
    lemma_seat_for(seats, frame.seated, player_uuid);
}

/// When the server drops this peer, every lobby it is a guest in is over, and no lobby that it
/// hosts: its host is gone, as it is told once, at the end. A peer that is nobody's guest only
/// forgets who it is.
pub proof fn law_a_dropped_guest_loses_its_lobbies(
    frame: FrameView,
    lobbies: Seq<LobbyEntity>,
    seats: Seq<SeatEntity>,
    participants: Seq<ParticipantEntity>,
    join_timeout: Option<u64>,
    reason: String,
)
    ensures
        ({
            let (after, effects) = frame.applied(
                lobbies,
                seats,
                participants,
                join_timeout,
                LobbyEvent::Disconnected { reason },
            );
            let guest = exists|entity: u64| is_a_guest_in(lobbies, entity);
            &&& after == frame
            &&& forall|entity: u64| #[trigger]
                effects.contains(Effect::EndClientLobby(entity)) == is_a_guest_in(lobbies, entity)
            &&& guest ==> {
                &&& effects.last() == Effect::ConcludeClientLobbies(LobbyLeftReason::HostGone)
                &&& forall|k: int|
                    0 <= k < effects.len() - 1 ==> (#[trigger] effects[k]) is EndClientLobby
            }
            &&& !guest ==> effects == seq![Effect::ForgetLocalId, Effect::ForgetHostUuid]
        }),
{
    let effects = frame.applied(
        lobbies,
        seats,
        participants,
        join_timeout,
        LobbyEvent::Disconnected { reason },
    ).1;
    let pending = super::world::pending_client_lobby();
    let active = super::world::active_client_lobby();
    let over = lobbies.filter(pending) + lobbies.filter(active);
    assert forall|k: int| 0 <= k < over.len() implies is_a_guest_in(
        lobbies,
        (#[trigger] over[k]).entity,
    ) by {
        if k < lobbies.filter(pending).len() {
            lists::lemma_kept_is_part(lobbies, pending, k);
        } else {
            lists::lemma_kept_is_part(lobbies, active, k - lobbies.filter(pending).len());
        }
        let i = choose|i: int| 0 <= i < lobbies.len() && lobbies[i] == over[k];
        assert(lobbies[i].entity == over[k].entity && !lobbies[i].hosted);
    }
    assert forall|entity: u64| is_a_guest_in(lobbies, entity) implies exists|k: int|
        0 <= k < over.len() && (#[trigger] over[k]).entity == entity by {
        let i = choose|i: int|
            0 <= i < lobbies.len() && (#[trigger] lobbies[i]).entity == entity
                && !lobbies[i].hosted;
        if lobbies[i].pending {
            lists::lemma_fitting_is_kept(lobbies, pending, i);
            let k = choose|k: int|
                0 <= k < lobbies.filter(pending).len() && lobbies.filter(pending)[k] == lobbies[i];
            assert(over[k].entity == entity);
        } else {
            lists::lemma_fitting_is_kept(lobbies, active, i);
            let k = choose|k: int|
                0 <= k < lobbies.filter(active).len() && lobbies.filter(active)[k] == lobbies[i];
            assert(over[k + lobbies.filter(pending).len()].entity == entity);
        }
    }
    if over.len() > 0 {
        assert(is_a_guest_in(lobbies, over[0].entity));
    }
    assert forall|entity: u64| #[trigger]
        effects.contains(Effect::EndClientLobby(entity)) == is_a_guest_in(lobbies, entity) by {
        if effects.contains(Effect::EndClientLobby(entity)) {
            let k = choose|k: int|
                0 <= k < effects.len() && effects[k] == Effect::EndClientLobby(entity);
            assert(over[k].entity == entity);
        }
        if is_a_guest_in(lobbies, entity) {
            let k = choose|k: int| 0 <= k < over.len() && (#[trigger] over[k]).entity == entity;
            assert(effects[k] == Effect::EndClientLobby(entity));
        }
    }
}

/// A successor is waited for as long as the server takes to notice a silent host, one keep-alive
/// of twenty seconds, and ten seconds more; reaching it may take five seconds more than a join
/// may, and twenty where a join may take for ever.
pub proof fn law_a_successor_is_given_time(
    frame: FrameView,
    lobbies: Seq<LobbyEntity>,
    seats: Seq<SeatEntity>,
    participants: Seq<ParticipantEntity>,
    join_timeout: Option<u64>,
    idle_timeout_secs: u32,
)
    requires
        events::has_room_for_margin(join_timeout),
        lobbies.len() > 0,
    ensures
        ({
            let (after, effects) = frame.applied(
                lobbies,
                seats,
                participants,
                join_timeout,
                LobbyEvent::LobbyMigratable { idle_timeout_secs },
            );
            let made = effects[0];
            &&& after == frame
            &&& effects.len() == 1
            &&& made is MakeMigratable
            &&& made->MakeMigratable_lobby == lobbies[0].entity
            &&& made->successor_within == 1_000_000_000 * (idle_timeout_secs + 30)
            &&& join_timeout is Some ==> made->reach_within == join_timeout->0 + 5_000_000_000
            &&& join_timeout is None ==> made->reach_within == 20_000_000_000
        }),
{
}

proof fn lemma_seats_opened(
    frame: FrameView,
    seats: Seq<SeatEntity>,
    lobby: u64,
    me: u128,
    members: Seq<u128>,
) -> (players: Seq<u128>)
    requires
        frame.next_seat + members.len() <= u64::MAX,
    ensures
        players.len() <= members.len(),
        players.no_duplicates(),
        forall|p: u128| #[trigger]
            players.contains(p) == (members.contains(p) && p != me && !is_seated(
                seats,
                frame.seated,
                p,
            )),
        ({
            let (after, effects) = events::all_seated(frame, seats, lobby, me, members);
            &&& opens_seats(effects, lobby, frame.next_seat as int, players)
            &&& after.next_seat == frame.next_seat + players.len()
            &&& after.hosted == frame.hosted
            &&& after.local_player_uuid == frame.local_player_uuid
            &&& after.signalling_lost == frame.signalling_lost
            &&& forall|p: u128| #[trigger]
                is_seated(seats, after.seated, p) == (is_seated(seats, frame.seated, p)
                    || players.contains(p))
        }),
    decreases members.len(),
{
    if members.len() == 0 {
        Seq::empty()
    } else {
        let (before, earlier) = events::all_seated(frame, seats, lobby, me, members.drop_last());
        let players = lemma_seats_opened(frame, seats, lobby, me, members.drop_last());
        let member = members.last();
        let (after, effects) = events::all_seated(frame, seats, lobby, me, members);
        assert(members =~= members.drop_last().push(member));
        assert forall|p: u128| members.contains(p) == (members.drop_last().contains(p) || p
            == member) by {
            lists::lemma_pushed(members.drop_last(), member, p);
        }
        lemma_seat_for(seats, before.seated, member);
        if member == me || is_seated(seats, before.seated, member) {
            players
        } else {
            let more = players.push(member);
            assert(!players.contains(member));
            assert forall|p: u128| #[trigger]
                more.contains(p) == (members.contains(p) && p != me && !is_seated(
                    seats,
                    frame.seated,
                    p,
                )) by {
                lists::lemma_pushed(players, member, p);
            }
            assert(more.no_duplicates()) by {
                assert forall|i: int, j: int|
                    0 <= i < more.len() && 0 <= j < more.len() && i != j implies more[i] != more[j] by {
                    if i < players.len() && j < players.len() {
                        assert(players[i] != players[j]);
                    } else if i < players.len() {
                        assert(players.contains(players[i]));
                    } else {
                        assert(players.contains(players[j]));
                    }
                }
            }
            assert(opens_seats(effects, lobby, frame.next_seat as int, more)) by {
                assert forall|t: int| 0 <= t < more.len() implies {
                    &&& effects[3 * t] == Effect::DisconnectPeer(#[trigger] more[t])
                    &&& effects[3 * t + 1] == Effect::ConnectPeer(more[t])
                    &&& effects[3 * t + 2] == (Effect::SpawnSeat {
                        seat: (frame.next_seat + t) as u64,
                        lobby,
                        player_uuid: more[t],
                    })
                } by {
                    if t < players.len() {
                        assert(earlier[3 * t] == Effect::DisconnectPeer(players[t]));
                    }
                }
            }
            assert forall|p: u128| #[trigger]
                is_seated(seats, after.seated, p) == (is_seated(seats, frame.seated, p)
                    || more.contains(p)) by {
                lists::lemma_pushed(players, member, p);
                assert(is_seated(seats, after.seated, p) == (is_seated(seats, before.seated, p) || p
                    == member)) by {
                    assert(after.seated[before.seated.len() as int].player_uuid == member);
                    assert(forall|i: int|
                        0 <= i < before.seated.len() ==> (#[trigger] before.seated[i])
                            == after.seated[i]);
                    if exists|i: int|
                        0 <= i < before.seated.len() && (#[trigger] before.seated[i]).player_uuid
                            == p {
                        let i = choose|i: int|
                            0 <= i < before.seated.len() && (
                            #[trigger] before.seated[i]).player_uuid == p;
                        assert(after.seated[i].player_uuid == p);
                    }
                    if exists|i: int|
                        0 <= i < after.seated.len() && (#[trigger] after.seated[i]).player_uuid == p {
                        let i = choose|i: int|
                            0 <= i < after.seated.len() && (#[trigger] after.seated[i]).player_uuid
                                == p;
                        if i < before.seated.len() {
                            assert(before.seated[i].player_uuid == p);
                        }
                    }
                }
            }
            more
        }
    }
}

/// The peer that the server names host lets go of the host before it, hosts the lobby under the
/// new code, and opens a seat, on a fresh connection, for every other member that has none:
/// `players`, each once. Then the session hears of its new host and of all the members.
pub proof fn law_the_named_host_takes_over(
    frame: FrameView,
    lobbies: Seq<LobbyEntity>,
    seats: Seq<SeatEntity>,
    participants: Seq<ParticipantEntity>,
    join_timeout: Option<u64>,
    me: u128,
    lobby_id: u64,
    previous_host: u128,
    code: String,
    members: Vec<u128>,
) -> (players: Seq<u128>)
    requires
        frame.local_player_uuid == Some(me),
        lobbies.len() > 0,
        frame.next_seat + members@.len() <= u64::MAX,
    ensures
        ({
            let (after, effects) = frame.applied(
                lobbies,
                seats,
                participants,
                join_timeout,
                LobbyEvent::HostChanged { lobby_id, previous_host, new_host: me, code, members },
            );
            let lobby = lobbies[0].entity;
            &&& effects.len() >= 3
            &&& effects[0] == Effect::DisconnectPeer(previous_host)
            &&& effects[1] == (Effect::BecomeHost { lobby, code })
            &&& opens_seats(
                effects.subrange(2, effects.len() - 1),
                lobby,
                frame.next_seat as int,
                players,
            )
            &&& effects.last() == (Effect::NewHostNamed {
                lobby,
                previous: previous_host,
                new_host: me,
                members,
            })
            &&& players.no_duplicates()
            &&& forall|p: u128| #[trigger]
                players.contains(p) == (members@.contains(p) && p != me && !is_seated(
                    seats,
                    frame.seated,
                    p,
                ))
            &&& after.hosted == Some(lobby)
            &&& forall|p: u128|
                members@.contains(p) && p != me ==> #[trigger] is_seated(seats, after.seated, p)
        }),
{
    let lobby = lobbies[0].entity;
    let hosting = FrameView { hosted: Some(lobby), ..frame };
    let (after, opened) = events::all_seated(hosting, seats, lobby, me, members@);
    let players = lemma_seats_opened(hosting, seats, lobby, me, members@);
    let effects = frame.applied(
        lobbies,
        seats,
        participants,
        join_timeout,
        LobbyEvent::HostChanged { lobby_id, previous_host, new_host: me, code, members },
    ).1;
    assert(effects.subrange(2, effects.len() - 1) =~= opened);
    assert forall|p: u128| members@.contains(p) && p != me implies #[trigger]
        is_seated(seats, after.seated, p) by {
        assert(players.contains(p) || is_seated(seats, frame.seated, p));
    }
    players
}

/// Every other member lets go of the host before and of whatever connection it had to the new one,
/// and follows the new one under the new code; it opens no seat and connects to nobody.
pub proof fn law_the_others_follow_the_named_host(
    frame: FrameView,
    lobbies: Seq<LobbyEntity>,
    seats: Seq<SeatEntity>,
    participants: Seq<ParticipantEntity>,
    join_timeout: Option<u64>,
    me: u128,
    lobby_id: u64,
    previous_host: u128,
    new_host: u128,
    code: String,
    members: Vec<u128>,
)
    requires
        frame.local_player_uuid == Some(me),
        new_host != me,
        lobbies.len() > 0,
    ensures
        ({
            let (after, effects) = frame.applied(
                lobbies,
                seats,
                participants,
                join_timeout,
                LobbyEvent::HostChanged { lobby_id, previous_host, new_host, code, members },
            );
            let lobby = lobbies[0].entity;
            &&& effects == seq![
                Effect::DisconnectPeer(previous_host),
                Effect::DisconnectPeer(new_host),
                Effect::FollowHost { lobby, host_uuid: new_host, code },
                Effect::NewHostNamed { lobby, previous: previous_host, new_host, members },
            ]
            &&& after.hosted is None
            &&& after.seated == frame.seated && after.next_seat == frame.next_seat
        }),
{
}

proof fn lemma_torn_down_in_full(
    lobbies: Seq<LobbyEntity>,
    seats: Seq<SeatEntity>,
    participants: Seq<ParticipantEntity>,
)
    ensures
        ({
            let torn = events::torn_down(lobbies, seats, participants);
            &&& forall|i: int, j: int|
                #![trigger lobbies[i], participants[j]]
                0 <= i < lobbies.len() && 0 <= j < participants.len() && participants[j].lobby
                    == lobbies[i].entity ==> torn.contains(
                    Effect::DespawnParticipant(participants[j].entity),
                )
            &&& forall|k: int|
                0 <= k < torn.len() ==> {
                    ||| (#[trigger] torn[k]) is DespawnParticipant
                    ||| torn[k] is DespawnSeat
                    ||| torn[k] is DespawnLobby
                }
        }),
    decreases lobbies.len(),
{
    if lobbies.len() > 0 {
        let earlier = lobbies.drop_last();
        lemma_torn_down_in_full(earlier, seats, participants);
        let torn = events::torn_down(lobbies, seats, participants);
        let before = events::torn_down(earlier, seats, participants);
        let fits = events::takes_part_in(lobbies.last().entity);
        let kept = participants.filter(fits);
        let gone = events::participants_despawned(participants, lobbies.last().entity);
        assert forall|i: int, j: int|
            #![trigger lobbies[i], participants[j]]
            0 <= i < lobbies.len() && 0 <= j < participants.len() && participants[j].lobby
                == lobbies[i].entity implies torn.contains(
            Effect::DespawnParticipant(participants[j].entity),
        ) by {
            let wanted = Effect::DespawnParticipant(participants[j].entity);
            if i < earlier.len() {
                assert(earlier[i] == lobbies[i]);
                assert(before.contains(wanted));
                let k = choose|k: int| 0 <= k < before.len() && before[k] == wanted;
                assert(torn[k] == wanted);
            } else {
                lists::lemma_fitting_is_kept(participants, fits, j);
                let k = choose|k: int| 0 <= k < kept.len() && kept[k] == participants[j];
                assert(gone[k] == wanted);
                assert(torn[before.len() + k] == wanted);
            }
        }
    }
}

/// Losing the server is the end of the session: everybody is disconnected from, everybody who
/// takes part in a lobby goes with it, who this peer and its host are is forgotten, a join that
/// was under way has failed, and a lobby there was has been left. Nothing is opened or connected
/// to.
pub proof fn law_without_the_server_nothing_stays(
    frame: FrameView,
    lobbies: Seq<LobbyEntity>,
    seats: Seq<SeatEntity>,
    participants: Seq<ParticipantEntity>,
    join_timeout: Option<u64>,
)
    ensures
        ({
            let (after, effects) = frame.applied(
                lobbies,
                seats,
                participants,
                join_timeout,
                LobbyEvent::SignallingClosed,
            );
            &&& after.signalling_lost
            &&& effects[0] == Effect::DisconnectAll
            &&& effects.contains(Effect::ForgetLocalId)
            &&& effects.contains(Effect::ForgetHostUuid)
            &&& forall|i: int, j: int|
                #![trigger lobbies[i], participants[j]]
                0 <= i < lobbies.len() && 0 <= j < participants.len() && participants[j].lobby
                    == lobbies[i].entity ==> effects.contains(
                    Effect::DespawnParticipant(participants[j].entity),
                )
            &&& effects.contains(Effect::JoinFailed(JoinFailure::SignallingLost)) == exists|i: int|
                0 <= i < lobbies.len() && (#[trigger] lobbies[i]).pending
            &&& effects.contains(Effect::LobbyLeft(LobbyLeftReason::SignallingLost)) == (
            lobbies.len() > 0)
            &&& forall|k: int|
                0 <= k < effects.len() ==> {
                    ||| (#[trigger] effects[k]) is DisconnectAll
                    ||| effects[k] is DespawnParticipant
                    ||| effects[k] is DespawnSeat
                    ||| effects[k] is DespawnLobby
                    ||| effects[k] is ForgetLocalId
                    ||| effects[k] is ForgetHostUuid
                    ||| effects[k] == Effect::JoinFailed(JoinFailure::SignallingLost)
                    ||| effects[k] == Effect::LobbyLeft(LobbyLeftReason::SignallingLost)
                }
        }),
{
    let effects = frame.applied(
        lobbies,
        seats,
        participants,
        join_timeout,
        LobbyEvent::SignallingClosed,
    ).1;
    let torn = events::torn_down(lobbies, seats, participants);
    let n = torn.len() as int;
    lemma_torn_down_in_full(lobbies, seats, participants);
    assert(forall|k: int| 0 <= k < n ==> (#[trigger] torn[k]) == effects[k + 1]);
    assert(effects[n + 1] == Effect::ForgetLocalId);
    assert(effects[n + 2] == Effect::ForgetHostUuid);
    assert forall|i: int, j: int|
        #![trigger lobbies[i], participants[j]]
        0 <= i < lobbies.len() && 0 <= j < participants.len() && participants[j].lobby
            == lobbies[i].entity implies effects.contains(
        Effect::DespawnParticipant(participants[j].entity),
    ) by {
        let wanted = Effect::DespawnParticipant(participants[j].entity);
        assert(torn.contains(wanted));
        let k = choose|k: int| 0 <= k < n && torn[k] == wanted;
        assert(effects[k + 1] == wanted);
    }
    assert forall|k: int| 1 <= k < n + 1 implies {
        ||| (#[trigger] effects[k]) is DespawnParticipant
        ||| effects[k] is DespawnSeat
        ||| effects[k] is DespawnLobby
    } by {
        assert(torn[k - 1] == effects[k]);
    }
    if exists|i: int| 0 <= i < lobbies.len() && (#[trigger] lobbies[i]).pending {
        assert(effects[n + 3] == Effect::JoinFailed(JoinFailure::SignallingLost));
    }
    if lobbies.len() > 0 {
        assert(effects.last() == Effect::LobbyLeft(LobbyLeftReason::SignallingLost));
    }
}

/// Events are applied in turn: reading some and then the rest is reading them all, and what each
/// does is done in that order.
pub proof fn law_events_are_applied_in_turn(
    frame: FrameView,
    lobbies: Seq<LobbyEntity>,
    seats: Seq<SeatEntity>,
    participants: Seq<ParticipantEntity>,
    join_timeout: Option<u64>,
    first: Seq<LobbyEvent>,
    rest: Seq<LobbyEvent>,
)
    ensures
        ({
            let (between, earlier) = frame.all_applied(
                lobbies,
                seats,
                participants,
                join_timeout,
                first,
            );
            let (after, later) = between.all_applied(
                lobbies,
                seats,
                participants,
                join_timeout,
                rest,
            );
            frame.all_applied(lobbies, seats, participants, join_timeout, first + rest) == (
                after,
                earlier + later,
            )
        }),
        rest.len() == 1 ==> frame.all_applied(
            lobbies,
            seats,
            participants,
            join_timeout,
            rest,
        ) == frame.applied(lobbies, seats, participants, join_timeout, rest[0]),
    decreases rest.len(),
{
    if rest.len() == 0 {
        assert(first + rest =~= first);
        let earlier = frame.all_applied(lobbies, seats, participants, join_timeout, first).1;
        assert(earlier + Seq::<Effect>::empty() =~= earlier);
    } else {
        assert((first + rest).drop_last() =~= first + rest.drop_last());
        assert((first + rest).last() == rest.last());
        law_events_are_applied_in_turn(
            frame,
            lobbies,
            seats,
            participants,
            join_timeout,
            first,
            rest.drop_last(),
        );
        let (between, earlier) = frame.all_applied(
            lobbies,
            seats,
            participants,
            join_timeout,
            first,
        );
        let (middle, later) = between.all_applied(
            lobbies,
            seats,
            participants,
            join_timeout,
            rest.drop_last(),
        );
        let last = middle.applied(lobbies, seats, participants, join_timeout, rest.last()).1;
        assert(earlier + later + last =~= earlier + (later + last));
        if rest.len() == 1 {
            reveal_with_fuel(FrameView::all_applied, 2);
            assert(rest.drop_last() =~= Seq::<LobbyEvent>::empty());
            let only = frame.applied(lobbies, seats, participants, join_timeout, rest[0]).1;
            assert(Seq::<Effect>::empty() + only =~= only);
        }
    }
}

/// Ending a guest's lobbies takes away each of them that still stands, and no other; who this peer
/// and its host are is forgotten, and the reason is said once, last. Where none stands, nothing is
/// said.
pub proof fn law_a_guests_lobbies_end_together(
    lobbies: Seq<LobbyEntity>,
    over: Seq<u64>,
    reason: LobbyLeftReason,
)
    ensures
        ({
            let effects = session::client_lobbies_ended(lobbies, over, reason);
            let n = effects.len() as int;
            &&& forall|entity: u64| #[trigger]
                effects.contains(Effect::DespawnLobby(entity)) == (over.contains(entity) && exists|
                    i: int,
                |
                    0 <= i < lobbies.len() && (#[trigger] lobbies[i]).entity == entity)
            &&& n == 0 || {
                &&& n > 3
                &&& effects[n - 3] == Effect::ForgetLocalId
                &&& effects[n - 2] == Effect::ForgetHostUuid
                &&& effects[n - 1] == Effect::LobbyLeft(reason)
                &&& forall|k: int| 0 <= k < n - 3 ==> (#[trigger] effects[k]) is DespawnLobby
            }
        }),
{
    let effects = session::client_lobbies_ended(lobbies, over, reason);
    let fits = session::stands(lobbies);
    let there = over.filter(fits);
    assert forall|entity: u64| #[trigger]
        effects.contains(Effect::DespawnLobby(entity)) == (over.contains(entity) && exists|i: int|
            0 <= i < lobbies.len() && (#[trigger] lobbies[i]).entity == entity) by {
        if effects.contains(Effect::DespawnLobby(entity)) {
            let k = choose|k: int|
                0 <= k < effects.len() && effects[k] == Effect::DespawnLobby(entity);
            lists::lemma_kept_is_part(over, fits, k);
            assert(there[k] == entity);
        }
        if over.contains(entity) && fits(entity) {
            let i = choose|i: int| 0 <= i < over.len() && over[i] == entity;
            lists::lemma_fitting_is_kept(over, fits, i);
            let k = choose|k: int| 0 <= k < there.len() && there[k] == entity;
            assert(effects[k] == Effect::DespawnLobby(entity));
        }
    }
}

} // verus!
