//! A frame of the session: all its events, and what holds of them.

use vstd::prelude::*;

use super::connection::LobbyEvent;
use super::events;
use super::events::{Effect, FrameView, LobbyFrame, Seated};
use super::outcome::LobbyLeftReason;
use super::world::{LobbyEntity, ParticipantEntity, SeatEntity, SessionWorld};
use crate::lists;

verus! {

/// How many seats an event may open.
pub open spec fn seats_needed(event: LobbyEvent) -> nat {
    match event {
        LobbyEvent::PlayerJoined { .. } => 1,
        LobbyEvent::HostChanged { members, .. } => members@.len(),
        _ => 0,
    }
}

/// How many seats events may open.
pub open spec fn all_seats_needed(events: Seq<LobbyEvent>) -> nat
    decreases events.len(),
{
    if events.len() == 0 {
        0
    } else {
        all_seats_needed(events.drop_last()) + seats_needed(events.last())
    }
}

proof fn lemma_needs_grow(events: Seq<LobbyEvent>, i: int)
    requires
        0 <= i <= events.len(),
    ensures
        all_seats_needed(events.take(i)) <= all_seats_needed(events),
    decreases events.len(),
{
    if i < events.len() {
        lemma_needs_grow(events.drop_last(), i);
        assert(events.drop_last().take(i) =~= events.take(i));
    } else {
        assert(events.take(i) =~= events);
    }
}

proof fn lemma_seating_is_bounded(
    frame: FrameView,
    seats: Seq<SeatEntity>,
    lobby: u64,
    me: u128,
    members: Seq<u128>,
)
    requires
        frame.next_seat + members.len() <= u64::MAX,
    ensures
        frame.next_seat <= events::all_seated(frame, seats, lobby, me, members).0.next_seat
            <= frame.next_seat + members.len(),
    decreases members.len(),
{
    if members.len() > 0 {
        lemma_seating_is_bounded(frame, seats, lobby, me, members.drop_last());
    }
}

proof fn lemma_applied_is_bounded(
    frame: FrameView,
    lobbies: Seq<LobbyEntity>,
    seats: Seq<SeatEntity>,
    participants: Seq<ParticipantEntity>,
    join_timeout: Option<u64>,
    event: LobbyEvent,
)
    requires
        frame.next_seat + seats_needed(event) <= u64::MAX,
    ensures
        frame.next_seat <= frame.applied(
            lobbies,
            seats,
            participants,
            join_timeout,
            event,
        ).0.next_seat <= frame.next_seat + seats_needed(event),
{
    if let LobbyEvent::HostChanged { members, .. } = event {
        if frame.local_player_uuid is Some && lobbies.len() > 0 {
            let lobby = lobbies[0].entity;
            lemma_seating_is_bounded(
                FrameView { hosted: Some(lobby), ..frame },
                seats,
                lobby,
                frame.local_player_uuid->0,
                members@,
            );
        }
    }
}

/// Apply a frame's events, in order: what is to be done about them, in order.
pub fn apply_lobby_events(
    frame: &mut LobbyFrame,
    world: &SessionWorld,
    join_timeout: Option<u64>,
    events: Vec<LobbyEvent>,
) -> (effects: Vec<Effect>)
    requires
        old(frame).next_seat + all_seats_needed(events@) <= u64::MAX,
        events::has_room_for_margin(join_timeout),
    ensures
        final(frame)@ == old(frame)@.all_applied(
            world.lobbies@,
            world.seats@,
            world.participants@,
            join_timeout,
            events@,
        ).0,
        effects@ == old(frame)@.all_applied(
            world.lobbies@,
            world.seats@,
            world.participants@,
            join_timeout,
            events@,
        ).1,
{
    let ghost all = events@;
    let mut effects: Vec<Effect> = Vec::new();
    assert(all.take(0) =~= Seq::<LobbyEvent>::empty());
    for event in iter: events
        invariant
            iter.seq() == all,
            events::has_room_for_margin(join_timeout),
            old(frame).next_seat + all_seats_needed(all) <= u64::MAX,
            frame.next_seat <= old(frame).next_seat + all_seats_needed(
                all.take(iter.index() as int),
            ),
            (frame@, effects@) == old(frame)@.all_applied(
                world.lobbies@,
                world.seats@,
                world.participants@,
                join_timeout,
                all.take(iter.index() as int),
            ),
    {
        proof {
            let i = iter.index() as int;
            assert(all.take(i + 1).drop_last() =~= all.take(i));
            assert(all.take(i + 1).last() == event);
            lemma_needs_grow(all, i + 1);
            lemma_applied_is_bounded(
                frame@,
                world.lobbies@,
                world.seats@,
                world.participants@,
                join_timeout,
                event,
            );
        }
        let mut more = frame.apply(world, join_timeout, event);
        effects.append(&mut more);
    }
    assert(all.take(all.len() as int) =~= all);
    effects
}

/// A lobby among `lobbies`.
pub open spec fn stands(lobbies: Seq<LobbyEntity>) -> spec_fn(u64) -> bool {
    |entity: u64|
        exists|i: int| 0 <= i < lobbies.len() && (#[trigger] lobbies[i]).entity == entity
}

/// What ending the client lobbies `over` comes to in a session of `lobbies`.
pub open spec fn client_lobbies_ended(
    lobbies: Seq<LobbyEntity>,
    over: Seq<u64>,
    reason: LobbyLeftReason,
) -> Seq<Effect> {
    let there = over.filter(stands(lobbies));
    if there.len() == 0 {
        Seq::empty()
    } else {
        there.map_values(|entity: u64| Effect::DespawnLobby(entity)) + seq![
            Effect::ForgetLocalId,
            Effect::ForgetHostUuid,
            Effect::LobbyLeft(reason),
        ]
    }
}

/// End this client's session in `over`, judged when it is done rather than when the event was
/// read.
///
/// The server's word that a lobby is over can land on the same frame as the host's own, which it
/// races, and whichever is applied second must find nothing left to end, or the game hears of one
/// session's end twice.
pub fn end_client_lobbies(world: &SessionWorld, over: &Vec<u64>, reason: LobbyLeftReason) -> (
effects: Vec<Effect>)
    ensures
        effects@ == client_lobbies_ended(world.lobbies@, over@, reason),
{
    let mut effects: Vec<Effect> = Vec::new();
    let mut i: usize = 0;
    proof {
        reveal(Seq::filter);
        assert(effects@ =~= over@.take(0).filter(stands(world.lobbies@)).map_values(
            |entity: u64| Effect::DespawnLobby(entity),
        ));
    }
    while i < over.len()
        invariant
            i <= over@.len(),
            effects@ == over@.take(i as int).filter(stands(world.lobbies@)).map_values(
                |entity: u64| Effect::DespawnLobby(entity),
            ),
        decreases over.len() - i,
    {
        proof {
            reveal(Seq::filter);
            assert(over@.take(i + 1).drop_last() =~= over@.take(i as int));
            assert(over@.take(i + 1).last() == over@[i as int]);
        }
        let there = is_there(&world.lobbies, over[i]);
        if there {
            effects.push(Effect::DespawnLobby(over[i]));
        }
        assert(effects@ =~= over@.take(i + 1).filter(stands(world.lobbies@)).map_values(
            |entity: u64| Effect::DespawnLobby(entity),
        ));
        i += 1;
    }
    assert(over@.take(i as int) =~= over@);
    if effects.len() == 0 {
        assert(effects@ =~= Seq::<Effect>::empty());
        return effects;
    }
    effects.push(Effect::ForgetLocalId);
    effects.push(Effect::ForgetHostUuid);
    effects.push(Effect::LobbyLeft(reason));
    assert(effects@ =~= client_lobbies_ended(world.lobbies@, over@, reason));
    effects
}

fn is_there(lobbies: &Vec<LobbyEntity>, entity: u64) -> (there: bool)
    ensures
        there == stands(lobbies@)(entity),
{
    let mut i: usize = 0;
    while i < lobbies.len()
        invariant
            i <= lobbies@.len(),
            forall|j: int| 0 <= j < i ==> (#[trigger] lobbies@[j]).entity != entity,
        decreases lobbies.len() - i,
    {
        if lobbies[i].entity == entity {
            return true;
        }
        i += 1;
    }
    false
}

/// Ending what is not there any more says nothing: a session's end is heard once.
pub proof fn law_an_ended_session_ends_once(
    lobbies: Seq<LobbyEntity>,
    over: Seq<u64>,
    reason: LobbyLeftReason,
)
    requires
        forall|i: int| 0 <= i < over.len() ==> !stands(lobbies)(#[trigger] over[i]),
    ensures
        client_lobbies_ended(lobbies, over, reason) == Seq::<Effect>::empty(),
{
    lists::lemma_none_kept(over, stands(lobbies));
}

/// No player has two seats: not two of those opened during the frame, and none beside a seat that
/// stood before it.
pub open spec fn one_seat_each(frame: FrameView, seats: Seq<SeatEntity>) -> bool {
    &&& forall|i: int, j: int|
        0 <= i < j < frame.seated.len() ==> (#[trigger] frame.seated[i]).player_uuid != (
        #[trigger] frame.seated[j]).player_uuid
    &&& forall|i: int, j: int|
        0 <= i < frame.seated.len() && 0 <= j < seats.len() ==> (
        #[trigger] frame.seated[i]).player_uuid != (#[trigger] seats[j]).player_uuid
}

proof fn lemma_no_seat(seats: Seq<SeatEntity>, seated: Seq<Seated>, player: u128)
    requires
        events::seat_for(seats, seated, player) is None,
    ensures
        forall|i: int| 0 <= i < seats.len() ==> (#[trigger] seats[i]).player_uuid != player,
        forall|i: int| 0 <= i < seated.len() ==> (#[trigger] seated[i]).player_uuid != player,
{
    broadcast use vstd::seq_lib::group_filter_ensures;

    assert forall|i: int| 0 <= i < seats.len() implies (#[trigger] seats[i]).player_uuid
        != player by {
        if seats[i].player_uuid == player {
            assert(seats.filter(events::seat_of_player(player)).contains(seats[i]));
        }
    }
    assert forall|i: int| 0 <= i < seated.len() implies (#[trigger] seated[i]).player_uuid
        != player by {
        if seated[i].player_uuid == player {
            assert(seated.filter(events::seated_for(player)).contains(seated[i]));
        }
    }
}

proof fn lemma_seating_keeps_one_each(
    frame: FrameView,
    seats: Seq<SeatEntity>,
    lobby: u64,
    me: u128,
    members: Seq<u128>,
)
    requires
        one_seat_each(frame, seats),
    ensures
        one_seat_each(events::all_seated(frame, seats, lobby, me, members).0, seats),
    decreases members.len(),
{
    if members.len() > 0 {
        lemma_seating_keeps_one_each(frame, seats, lobby, me, members.drop_last());
        let before = events::all_seated(frame, seats, lobby, me, members.drop_last()).0;
        if members.last() != me && events::seat_for(seats, before.seated, members.last()) is None {
            lemma_no_seat(seats, before.seated, members.last());
        }
    }
}

proof fn lemma_filter_keeps_one_each(seated: Seq<Seated>, seat: u64)
    requires
        forall|i: int, j: int|
            0 <= i < j < seated.len() ==> (#[trigger] seated[i]).player_uuid != (
            #[trigger] seated[j]).player_uuid,
    ensures
        ({
            let rest = seated.filter(events::seated_elsewhere(seat));
            &&& forall|i: int, j: int|
                0 <= i < j < rest.len() ==> (#[trigger] rest[i]).player_uuid != (
                #[trigger] rest[j]).player_uuid
            &&& forall|i: int| 0 <= i < rest.len() ==> seated.contains(#[trigger] rest[i])
        }),
    decreases seated.len(),
{
    reveal(Seq::filter);
    let rest = seated.filter(events::seated_elsewhere(seat));
    if seated.len() > 0 {
        let before = seated.drop_last();
        assert forall|i: int, j: int| 0 <= i < j < before.len() implies (
        #[trigger] before[i]).player_uuid != (#[trigger] before[j]).player_uuid by {
            assert(before[i] == seated[i] && before[j] == seated[j]);
        }
        lemma_filter_keeps_one_each(before, seat);
        let kept = before.filter(events::seated_elsewhere(seat));
        assert forall|i: int| 0 <= i < rest.len() implies seated.contains(#[trigger] rest[i]) by {
            if i < kept.len() {
                assert(rest[i] == kept[i]);
                let k = choose|k: int| 0 <= k < before.len() && before[k] == kept[i];
                assert(seated[k] == rest[i]);
            } else {
                assert(seated[seated.len() - 1] == rest[i]);
            }
        }
        assert forall|i: int, j: int| 0 <= i < j < rest.len() implies (
        #[trigger] rest[i]).player_uuid != (#[trigger] rest[j]).player_uuid by {
            if j < kept.len() {
                assert(rest[i] == kept[i] && rest[j] == kept[j]);
            } else {
                assert(rest[i] == kept[i]);
                let k = choose|k: int| 0 <= k < before.len() && before[k] == kept[i];
                assert(seated[k] == rest[i]);
                assert(rest[j] == seated[seated.len() - 1]);
            }
        }
    }
}

proof fn lemma_applied_keeps_one_each(
    frame: FrameView,
    lobbies: Seq<LobbyEntity>,
    seats: Seq<SeatEntity>,
    participants: Seq<ParticipantEntity>,
    join_timeout: Option<u64>,
    event: LobbyEvent,
)
    requires
        one_seat_each(frame, seats),
    ensures
        one_seat_each(
            frame.applied(lobbies, seats, participants, join_timeout, event).0,
            seats,
        ),
{
    match event {
        LobbyEvent::PlayerJoined { player_uuid } => {
            if events::seat_for(seats, frame.seated, player_uuid) is None {
                lemma_no_seat(seats, frame.seated, player_uuid);
            }
        },
        LobbyEvent::PlayerLeft { player_uuid } => {
            let seat = events::seat_for(seats, frame.seated, player_uuid);
            if seat is Some {
                lemma_filter_keeps_one_each(frame.seated, seat->0);
                let rest = frame.seated.filter(events::seated_elsewhere(seat->0));
                assert forall|i: int, j: int|
                    0 <= i < rest.len() && 0 <= j < seats.len() implies (
                #[trigger] rest[i]).player_uuid != (#[trigger] seats[j]).player_uuid by {
                    let k = choose|k: int|
                        0 <= k < frame.seated.len() && frame.seated[k] == rest[i];
                    assert(frame.seated[k].player_uuid != seats[j].player_uuid);
                }
            }
        },
        LobbyEvent::HostChanged { members, .. } => {
            if frame.local_player_uuid is Some && lobbies.len() > 0 {
                let lobby = lobbies[0].entity;
                lemma_seating_keeps_one_each(
                    FrameView { hosted: Some(lobby), ..frame },
                    seats,
                    lobby,
                    frame.local_player_uuid->0,
                    members@,
                );
            }
        },
        _ => {},
    }
}

/// Whatever the server says and however often it says it, no player is given a second seat.
pub proof fn law_one_seat_each(
    frame: FrameView,
    lobbies: Seq<LobbyEntity>,
    seats: Seq<SeatEntity>,
    participants: Seq<ParticipantEntity>,
    join_timeout: Option<u64>,
    events: Seq<LobbyEvent>,
)
    requires
        one_seat_each(frame, seats),
    ensures
        one_seat_each(
            frame.all_applied(lobbies, seats, participants, join_timeout, events).0,
            seats,
        ),
    decreases events.len(),
{
    if events.len() > 0 {
        law_one_seat_each(
            frame,
            lobbies,
            seats,
            participants,
            join_timeout,
            events.drop_last(),
        );
        lemma_applied_keeps_one_each(
            frame.all_applied(lobbies, seats, participants, join_timeout, events.drop_last()).0,
            lobbies,
            seats,
            participants,
            join_timeout,
            events.last(),
        );
    }
}

/// A player who joins and leaves within a frame leaves no seat behind: the one opened for them is
/// closed again, and no other is.
pub proof fn law_leaving_closes_the_seat_joining_opened(
    frame: FrameView,
    lobbies: Seq<LobbyEntity>,
    seats: Seq<SeatEntity>,
    participants: Seq<ParticipantEntity>,
    join_timeout: Option<u64>,
    lobby: u64,
    player_uuid: u128,
)
    requires
        frame.hosted == Some(lobby),
        frame.next_seat < u64::MAX,
        events::seat_for(seats, frame.seated, player_uuid) is None,
        forall|i: int|
            0 <= i < frame.seated.len() ==> (#[trigger] frame.seated[i]).seat != frame.next_seat,
    ensures
        ({
            let joined = frame.applied(
                lobbies,
                seats,
                participants,
                join_timeout,
                LobbyEvent::PlayerJoined { player_uuid },
            );
            let left = joined.0.applied(
                lobbies,
                seats,
                participants,
                join_timeout,
                LobbyEvent::PlayerLeft { player_uuid },
            );
            &&& joined.1 == seq![
                Effect::ConnectPeer(player_uuid),
                Effect::SpawnSeat { seat: frame.next_seat, lobby, player_uuid },
            ]
            &&& left.1 == seq![Effect::DespawnSeat(frame.next_seat)]
            &&& left.0.seated == frame.seated
        }),
{
    broadcast use vstd::seq_lib::group_filter_ensures;

    lemma_no_seat(seats, frame.seated, player_uuid);
    let opened = Seated { seat: frame.next_seat, player_uuid };
    let seated = frame.seated.push(opened);
    let before = seats.filter(events::seat_of_player(player_uuid));
    if before.len() > 0 {
        assert(seats.contains(before[0]));
    }
    lists::lemma_all_kept(frame.seated, events::seated_elsewhere(frame.next_seat));
    lists::lemma_none_kept(frame.seated, events::seated_for(player_uuid));
    assert(seated.drop_last() =~= frame.seated);
    assert(seated.filter(events::seated_for(player_uuid)) =~= seq![opened]) by {
        reveal(Seq::filter);
    }
    assert(seated.filter(events::seated_elsewhere(frame.next_seat)) =~= frame.seated) by {
        reveal(Seq::filter);
    }
}

/// A peer that the server names host is told apart from one that it does not: the first hosts the
/// lobby from then on, the second hosts none, and a join that follows is answered by the first
/// alone.
pub proof fn law_only_the_named_host_hosts(
    frame: FrameView,
    lobbies: Seq<LobbyEntity>,
    seats: Seq<SeatEntity>,
    participants: Seq<ParticipantEntity>,
    join_timeout: Option<u64>,
    event: LobbyEvent,
)
    requires
        event is HostChanged,
        frame.local_player_uuid is Some,
        lobbies.len() > 0,
    ensures
        ({
            let after = frame.applied(lobbies, seats, participants, join_timeout, event).0;
            after.hosted == if event->new_host == frame.local_player_uuid->0 {
                Some(lobbies[0].entity)
            } else {
                None
            }
        }),
{
    lemma_seating_keeps_host(
        FrameView { hosted: Some(lobbies[0].entity), ..frame },
        seats,
        lobbies[0].entity,
        frame.local_player_uuid->0,
        event->members@,
    );
}

proof fn lemma_seating_keeps_host(
    frame: FrameView,
    seats: Seq<SeatEntity>,
    lobby: u64,
    me: u128,
    members: Seq<u128>,
)
    ensures
        events::all_seated(frame, seats, lobby, me, members).0.hosted == frame.hosted,
    decreases members.len(),
{
    if members.len() > 0 {
        lemma_seating_keeps_host(frame, seats, lobby, me, members.drop_last());
    }
}

/// Losing the signalling server leaves no lobby and no seat.
pub proof fn law_losing_the_server_ends_everything(
    frame: FrameView,
    lobbies: Seq<LobbyEntity>,
    seats: Seq<SeatEntity>,
    participants: Seq<ParticipantEntity>,
    join_timeout: Option<u64>,
)
    ensures
        ({
            let effects = frame.applied(
                lobbies,
                seats,
                participants,
                join_timeout,
                LobbyEvent::SignallingClosed,
            ).1;
            &&& forall|i: int|
                0 <= i < lobbies.len() ==> effects.contains(
                    Effect::DespawnLobby((#[trigger] lobbies[i]).entity),
                )
            &&& lobbies.len() > 0 ==> forall|i: int|
                0 <= i < seats.len() ==> effects.contains(
                    Effect::DespawnSeat((#[trigger] seats[i]).entity),
                )
        }),
{
    let effects = frame.applied(
        lobbies,
        seats,
        participants,
        join_timeout,
        LobbyEvent::SignallingClosed,
    ).1;
    let torn = events::torn_down(lobbies, seats, participants);
    assert forall|k: int| 0 <= k < torn.len() implies effects.contains(#[trigger] torn[k]) by {
        assert(effects[k + 1] == torn[k]);
    }
    assert forall|i: int| 0 <= i < lobbies.len() implies effects.contains(
        Effect::DespawnLobby((#[trigger] lobbies[i]).entity),
    ) by {
        lemma_torn_down(lobbies, seats, participants, i, 0);
        let k = choose|k: int|
            0 <= k < torn.len() && torn[k] == Effect::DespawnLobby(lobbies[i].entity);
        assert(effects.contains(torn[k]));
    }
    if lobbies.len() > 0 {
        assert forall|i: int| 0 <= i < seats.len() implies effects.contains(
            Effect::DespawnSeat((#[trigger] seats[i]).entity),
        ) by {
            lemma_torn_down(lobbies, seats, participants, 0, i);
            let k = choose|k: int|
                0 <= k < torn.len() && torn[k] == Effect::DespawnSeat(seats[i].entity);
            assert(effects.contains(torn[k]));
        }
    }
}

proof fn lemma_torn_down(
    lobbies: Seq<LobbyEntity>,
    seats: Seq<SeatEntity>,
    participants: Seq<ParticipantEntity>,
    i: int,
    j: int,
)
    requires
        0 <= i < lobbies.len(),
    ensures
        events::torn_down(lobbies, seats, participants).contains(
            Effect::DespawnLobby(lobbies[i].entity),
        ),
        0 <= j < seats.len() ==> events::torn_down(lobbies, seats, participants).contains(
            Effect::DespawnSeat(seats[j].entity),
        ),
    decreases lobbies.len(),
{
    let torn = events::torn_down(lobbies, seats, participants);
    let before = events::torn_down(lobbies.drop_last(), seats, participants);
    let people = events::participants_despawned(participants, lobbies.last().entity);
    let gone = events::seats_despawned(seats);
    if i == lobbies.len() - 1 {
        assert(torn[torn.len() - 1] == Effect::DespawnLobby(lobbies[i].entity));
    } else {
        lemma_torn_down(lobbies.drop_last(), seats, participants, i, j);
        assert(lobbies.drop_last()[i] == lobbies[i]);
        let k = choose|k: int|
            0 <= k < before.len() && before[k] == Effect::DespawnLobby(lobbies[i].entity);
        assert(torn[k] == before[k]);
    }
    if 0 <= j < seats.len() {
        assert(gone[j] == Effect::DespawnSeat(seats[j].entity));
        assert(torn[before.len() + people.len() + j] == gone[j]);
    }
}

} // verus!
