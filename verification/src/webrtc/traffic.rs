//! What goes over a session's connections: to whom, when, and what it leads to.

use vstd::prelude::*;

use super::connection;
use super::connection::{ConnectionInput, ConnectionPhase, ConnectionStep, Dispatch, LobbyEvent};
use super::events::{Effect, KEEP_ALIVE_INTERVAL};
use super::handshake;
use super::handshake::ReceivedHandshake;
use super::outcome;
use super::outcome::JoinFailure;
use super::ping;
use super::ping::{PeerRtt, PongReply, ReceivedEcho, PING_INTERVAL};
use super::requests;
use super::requests::{LeaveStep, PendingStep, RECONNECT_INTERVAL};
use super::world;
use super::world::{LobbyEntity, LobbyKind, SeatEntity};
use crate::lists;
use crate::protocol::{ClientMessage, ServerMessage};
use crate::text;

verus! {

/// Whether one of `lobbies`, and one only, is active and hosted as `hosted` says: the `i`th.
pub open spec fn is_the_only_active(lobbies: Seq<LobbyEntity>, hosted: bool, i: int) -> bool {
    &&& 0 <= i < lobbies.len()
    &&& !lobbies[i].pending && lobbies[i].hosted == hosted
    &&& forall|j: int|
        0 <= j < lobbies.len() && j != i ==> (#[trigger] lobbies[j]).pending || lobbies[j].hosted
            != hosted
}

proof fn lemma_found<T>(list: Seq<T>, fits: spec_fn(T) -> bool)
    ensures
        (list.filter(fits).len() > 0) == exists|i: int|
            0 <= i < list.len() && fits(#[trigger] list[i]),
{
    if list.filter(fits).len() > 0 {
        lists::lemma_kept_is_part(list, fits, 0);
        let i = choose|i: int| 0 <= i < list.len() && list[i] == list.filter(fits)[0];
        assert(fits(list[i]));
    }
    assert forall|i: int| 0 <= i < list.len() && fits(#[trigger] list[i]) implies list.filter(
        fits,
    ).len() > 0 by {
        lists::lemma_fitting_is_kept(list, fits, i);
    }
}

/// What makes a lobby one of each kind: whether it is pending, whose it is, and for some whether
/// the server was asked for it or has answered.
pub proof fn law_lobbies_are_told_apart(lobby: LobbyEntity)
    ensures
        (LobbyKind::Hosted.includes())(lobby) == (lobby.hosted && !lobby.pending),
        (LobbyKind::PendingHost.includes())(lobby) == (lobby.hosted && lobby.pending
            && lobby.requested),
        (LobbyKind::PendingClient.includes())(lobby) == (!lobby.hosted && lobby.pending),
        (LobbyKind::ActiveClient.includes())(lobby) == (!lobby.hosted && !lobby.pending),
        (LobbyKind::Client.includes())(lobby) == !lobby.hosted,
        (LobbyKind::KnownClient.includes())(lobby) == (!lobby.hosted && lobby.lobby_id is Some),
        (LobbyKind::KnownHosted.includes())(lobby) == (lobby.hosted && !lobby.pending
            && lobby.lobby_id is Some),
{
}

/// The lobby that this peer hosts is meant only where there is one, and one only.
pub proof fn law_one_hosted_lobby_is_meant(lobbies: Seq<LobbyEntity>, i: int)
    ensures
        is_the_only_active(lobbies, true, i) ==> world::single_hosted(lobbies) == Some(
            lobbies[i].entity,
        ),
        world::single_hosted(lobbies) is Some ==> exists|k: int|
            is_the_only_active(lobbies, true, k),
{
    if is_the_only_active(lobbies, true, i) {
        lists::lemma_only(lobbies, world::hosted_lobby(), i);
    }
    if world::single_hosted(lobbies) is Some {
        lemma_one_kept(lobbies, world::hosted_lobby());
        let k = choose|k: int|
            0 <= k < lobbies.len() && (world::hosted_lobby())(lobbies[k]) && forall|j: int|
                0 <= j < lobbies.len() && j != k ==> !(world::hosted_lobby())(
                    #[trigger] lobbies[j],
                );
        assert(is_the_only_active(lobbies, true, k));
    }
}

proof fn lemma_one_kept<T>(list: Seq<T>, fits: spec_fn(T) -> bool)
    requires
        list.filter(fits).len() == 1,
    ensures
        exists|k: int|
            0 <= k < list.len() && fits(list[k]) && forall|j: int|
                0 <= j < list.len() && j != k ==> !fits(#[trigger] list[j]),
    decreases list.len(),
{
    reveal(Seq::filter);
    let before = list.drop_last();
    if fits(list.last()) {
        let k = list.len() - 1;
        assert forall|j: int| 0 <= j < list.len() && j != k implies !fits(#[trigger] list[j]) by {
            if fits(list[j]) {
                assert(before[j] == list[j]);
                lists::lemma_fitting_is_kept(before, fits, j);
            }
        }
        assert(fits(list[k]));
    } else {
        lemma_one_kept(before, fits);
        let k = choose|k: int|
            0 <= k < before.len() && fits(before[k]) && forall|j: int|
                0 <= j < before.len() && j != k ==> !fits(#[trigger] before[j]);
        assert(fits(list[k]));
        assert forall|j: int| 0 <= j < list.len() && j != k implies !fits(#[trigger] list[j]) by {
            if j < before.len() {
                assert(before[j] == list[j]);
            }
        }
    }
}

/// A guest's pending lobby is promoted by the host's own handshake and by nothing else: one that
/// says it is the host's, from the peer that the server named.
pub proof fn law_the_hosts_own_word_promotes(lobby: LobbyEntity, handshake: ReceivedHandshake)
    ensures
        handshake::promotes(lobby, handshake) <==> match (lobby.host_uuid, handshake.sender) {
            (Some(host), Some(sender)) => host == sender && handshake.from_host,
            _ => false,
        },
{
}

/// A player's handshake promotes the seat in the host's lobby that waits for that player; one that
/// claims to be a host's promotes none, and neither does one of a player for whom no seat waits.
pub proof fn law_a_ready_player_gets_its_seat(
    seats: Seq<SeatEntity>,
    lobby: u64,
    handshakes: Seq<ReceivedHandshake>,
    sender: u128,
    from_host: bool,
    i: int,
)
    ensures
        ({
            let handshake = ReceivedHandshake { sender: Some(sender), from_host };
            let before = handshake::promoted_seats(seats, lobby, handshakes);
            let after = handshake::promoted_seats(seats, lobby, handshakes.push(handshake));
            let waits = |seat: SeatEntity|
                seat.pending && seat.lobby == Some(lobby) && seat.player_uuid == sender;
            let first = 0 <= i < seats.len() && waits(seats[i]) && forall|j: int|
                0 <= j < i ==> !waits(#[trigger] seats[j]);
            let none = forall|j: int| 0 <= j < seats.len() ==> !waits(#[trigger] seats[j]);
            &&& first && !from_host ==> after == before.push(seats[i].entity)
            &&& none || from_host ==> after == before
            &&& handshake::promoted_seats(
                seats,
                lobby,
                handshakes.push(ReceivedHandshake { sender: None, from_host }),
            ) == before
            &&& handshake::promoted_seats(seats, lobby, Seq::empty()).len() == 0
        }),
{
    let fits = handshake::waiting_seat(lobby, sender);
    let handshake = ReceivedHandshake { sender: Some(sender), from_host };
    assert(handshakes.push(handshake).drop_last() =~= handshakes);
    assert(handshakes.push(ReceivedHandshake { sender: None, from_host }).drop_last()
        =~= handshakes);
    let waits = |seat: SeatEntity|
        seat.pending && seat.lobby == Some(lobby) && seat.player_uuid == sender;
    if 0 <= i < seats.len() && waits(seats[i]) && forall|j: int|
        0 <= j < i ==> !waits(#[trigger] seats[j]) {
        lists::lemma_first(seats, fits, i);
    }
    if forall|j: int| 0 <= j < seats.len() ==> !waits(#[trigger] seats[j]) {
        lists::lemma_none_kept(seats, fits);
    }
}

/// Handshakes go out half a second apart, counted over the frames in which there is a lobby.
pub proof fn law_handshakes_are_half_a_second_apart(cooldown: u64, has_lobby: bool, elapsed: u64)
    ensures
        ({
            let left = handshake::cooldown_after(cooldown, has_lobby, elapsed);
            &&& has_lobby && elapsed >= cooldown ==> left == 500_000_000
            &&& has_lobby && elapsed < cooldown ==> left + elapsed == cooldown
            &&& !has_lobby ==> left == cooldown
        }),
{
}

/// A guest speaks up exactly while it is in, or on the way into, a lobby that the server knows.
pub proof fn law_a_known_guest_speaks_up(lobbies: Seq<LobbyEntity>)
    ensures
        handshake::is_known_client(lobbies) == exists|i: int|
            0 <= i < lobbies.len() && !(#[trigger] lobbies[i]).hosted
                && lobbies[i].lobby_id is Some,
        requests::is_a_client(lobbies) == exists|i: int|
            0 <= i < lobbies.len() && !(#[trigger] lobbies[i]).hosted,
{
    let known = world::known_client_lobby();
    let client = world::client_lobby();
    lemma_found(lobbies, known);
    lemma_found(lobbies, client);
    assert forall|i: int| 0 <= i < lobbies.len() && !(#[trigger] lobbies[i]).hosted
        && lobbies[i].lobby_id is Some implies handshake::is_known_client(lobbies) by {
        assert(known(lobbies[i]));
    }
    assert forall|i: int| 0 <= i < lobbies.len() && !(
    #[trigger] lobbies[i]).hosted implies requests::is_a_client(lobbies) by {
        assert(client(lobbies[i]));
    }
    if handshake::is_known_client(lobbies) {
        let i = choose|i: int| 0 <= i < lobbies.len() && known(#[trigger] lobbies[i]);
        assert(!lobbies[i].hosted && lobbies[i].lobby_id is Some);
    }
    if requests::is_a_client(lobbies) {
        let i = choose|i: int| 0 <= i < lobbies.len() && client(#[trigger] lobbies[i]);
        assert(!lobbies[i].hosted);
    }
}

/// Four fifths of a smoothed time are the last one and one fifth is this one, to the nanosecond
/// below; the first time stands as it is.
pub proof fn law_a_smoothed_time_is_one_fifth_new(previous: u64, rtt: u64)
    ensures
        5 * ping::smoothed(Some(previous), rtt) <= 4 * previous + rtt,
        4 * previous + rtt < 5 * ping::smoothed(Some(previous), rtt) + 5,
        ping::smoothed(None, rtt) == rtt,
{
}

/// Every ping of another peer is answered, once, in order and to its sender, with the time that it
/// carried; a ping of this peer's own is not.
pub proof fn law_every_ping_is_answered(pings: Seq<ReceivedEcho>, ping: ReceivedEcho)
    ensures
        ping::pongs_for(pings.push(ping)) == match ping.sender {
            Some(to) => ping::pongs_for(pings).push(PongReply { to, sent_at: ping.sent_at }),
            None => ping::pongs_for(pings),
        },
        ping::pongs_for(Seq::empty()).len() == 0,
{
    assert(pings.push(ping).drop_last() =~= pings);
}

/// A host that hosts one lobby notes a pong for the seat of the connected player that sent it; a
/// guest that is in one lobby notes it for the lobby, whoever sent it. A pending seat notes nothing,
/// and neither does a peer without a lobby.
pub proof fn law_a_pong_belongs_to_its_peer(
    lobbies: Seq<LobbyEntity>,
    seats: Seq<SeatEntity>,
    sender: u128,
    lobby: int,
    i: int,
)
    ensures
        ({
            let entities = ping::pong_entities(lobbies, seats, sender);
            let sat = |seat: SeatEntity| !seat.pending && seat.webrtc_uuid == sender;
            let hosts = is_the_only_active(lobbies, true, lobby) && forall|j: int|
                0 <= j < lobbies.len() && j != lobby ==> (#[trigger] lobbies[j]).pending;
            let joined = is_the_only_active(lobbies, false, lobby) && forall|j: int|
                0 <= j < lobbies.len() && j != lobby ==> (#[trigger] lobbies[j]).pending;
            let first = 0 <= i < seats.len() && sat(seats[i]) && forall|j: int|
                0 <= j < i ==> !sat(#[trigger] seats[j]);
            let none = forall|j: int| 0 <= j < seats.len() ==> !sat(#[trigger] seats[j]);
            &&& hosts && first ==> entities == seq![seats[i].entity]
            &&& hosts && none ==> entities.len() == 0
            &&& joined ==> entities == seq![lobbies[lobby].entity]
            &&& (forall|j: int| 0 <= j < lobbies.len() ==> (#[trigger] lobbies[j]).pending)
                ==> entities.len() == 0
        }),
{
    let sat = |seat: SeatEntity| !seat.pending && seat.webrtc_uuid == sender;
    let fits = ping::connected_at(sender);
    let hosts = is_the_only_active(lobbies, true, lobby) && forall|j: int|
        0 <= j < lobbies.len() && j != lobby ==> (#[trigger] lobbies[j]).pending;
    let joined = is_the_only_active(lobbies, false, lobby) && forall|j: int|
        0 <= j < lobbies.len() && j != lobby ==> (#[trigger] lobbies[j]).pending;
    if 0 <= i < seats.len() && sat(seats[i]) && forall|j: int|
        0 <= j < i ==> !sat(#[trigger] seats[j]) {
        lists::lemma_first(seats, fits, i);
    }
    if forall|j: int| 0 <= j < seats.len() ==> !sat(#[trigger] seats[j]) {
        lists::lemma_none_kept(seats, fits);
    }
    if hosts {
        lists::lemma_only(lobbies, world::hosted_lobby(), lobby);
        lists::lemma_none_kept(lobbies, world::active_client_lobby());
    }
    if joined {
        lists::lemma_only(lobbies, world::active_client_lobby(), lobby);
        lists::lemma_none_kept(lobbies, world::hosted_lobby());
    }
    if forall|j: int| 0 <= j < lobbies.len() ==> (#[trigger] lobbies[j]).pending {
        lists::lemma_none_kept(lobbies, world::active_client_lobby());
        lists::lemma_none_kept(lobbies, world::hosted_lobby());
    }
}

proof fn lemma_known(known: Seq<PeerRtt>, entity: u64, i: int)
    requires
        0 <= i < known.len(),
        known[i].entity == entity,
        forall|j: int| 0 <= j < i ==> (#[trigger] known[j]).entity != entity,
    ensures
        ping::known_rtt(known, entity) == Some(known[i].nanos),
    decreases i,
{
    if i > 0 {
        assert(known[0].entity != entity);
        let rest = known.drop_first();
        assert forall|j: int| 0 <= j < i - 1 implies (#[trigger] rest[j]).entity != entity by {
            assert(rest[j] == known[j + 1]);
        }
        lemma_known(rest, entity, i - 1);
    }
}

proof fn lemma_unknown(known: Seq<PeerRtt>, entity: u64)
    requires
        forall|j: int| 0 <= j < known.len() ==> (#[trigger] known[j]).entity != entity,
    ensures
        ping::known_rtt(known, entity) is None,
    decreases known.len(),
{
    if known.len() > 0 {
        assert(known[0].entity != entity);
        let rest = known.drop_first();
        assert forall|j: int| 0 <= j < rest.len() implies (#[trigger] rest[j]).entity != entity by {
            assert(rest[j] == known[j + 1]);
        }
        lemma_unknown(rest, entity);
    }
}

/// What a pong tells is the time since its ping was sent: as it is where nothing was known, and one
/// fifth of the new time where something was. A pong from the future tells nothing, and neither
/// does one of this peer's own. Pongs are taken in turn, each against what was known before the
/// frame.
pub proof fn law_a_pong_tells_the_time_since_its_ping(
    lobbies: Seq<LobbyEntity>,
    seats: Seq<SeatEntity>,
    known: Seq<PeerRtt>,
    earlier: Seq<ReceivedEcho>,
    pong: ReceivedEcho,
    now: u64,
    k: int,
    i: int,
)
    ensures
        ({
            let before = ping::all_rtts_after(lobbies, seats, known, earlier, now);
            let after = ping::all_rtts_after(lobbies, seats, known, earlier.push(pong), now);
            let made = after.skip(before.len() as int);
            let counts = pong.sender is Some && pong.sent_at <= now;
            let entities = ping::pong_entities(lobbies, seats, pong.sender->0);
            let entity = entities[k];
            &&& after.len() >= before.len() && after.take(before.len() as int) == before
            &&& !counts ==> made.len() == 0
            &&& counts ==> made.len() == entities.len()
            &&& counts && 0 <= k < entities.len() ==> {
                let took = now - pong.sent_at;
                &&& made[k].entity == entity
                &&& (forall|j: int| 0 <= j < known.len() ==> (#[trigger] known[j]).entity != entity)
                    ==> made[k].nanos == took
                &&& 0 <= i < known.len() && known[i].entity == entity && (forall|j: int|
                    0 <= j < i ==> (#[trigger] known[j]).entity != entity) ==> 5 * made[k].nanos
                    <= 4 * known[i].nanos + took < 5 * made[k].nanos + 5
            }
            &&& ping::all_rtts_after(lobbies, seats, known, Seq::empty(), now).len() == 0
        }),
{
    assert(earlier.push(pong).drop_last() =~= earlier);
    let before = ping::all_rtts_after(lobbies, seats, known, earlier, now);
    let after = ping::all_rtts_after(lobbies, seats, known, earlier.push(pong), now);
    assert(after.take(before.len() as int) =~= before);
    let entities = ping::pong_entities(lobbies, seats, pong.sender->0);
    if 0 <= k < entities.len() {
        let entity = entities[k];
        if forall|j: int| 0 <= j < known.len() ==> (#[trigger] known[j]).entity != entity {
            lemma_unknown(known, entity);
        }
        if 0 <= i < known.len() && known[i].entity == entity && (forall|j: int|
            0 <= j < i ==> (#[trigger] known[j]).entity != entity) {
            lemma_known(known, entity, i);
        }
    }
}

/// Pings go out a second apart at least, a peer says that it is still here every twenty seconds,
/// and a lost server is tried again every five.
pub proof fn law_intervals()
    ensures
        PING_INTERVAL == 1_000_000_000,
        KEEP_ALIVE_INTERVAL == 20 * PING_INTERVAL,
        RECONNECT_INTERVAL == 5 * PING_INTERVAL,
        handshake::HANDSHAKE_INTERVAL * 2 == PING_INTERVAL,
{
}

/// A packet for a hosted lobby goes to everybody who is connected; one for a guest's lobby to its
/// host, if that is connected: the one that the lobby names, or else the one the session does. A
/// packet for a seat goes to the player in it, and one for anything else to nobody.
pub proof fn law_a_packet_goes_to_whom_it_is_for(
    lobbies: Seq<LobbyEntity>,
    seats: Seq<SeatEntity>,
    host_uuid: Option<u128>,
    connected: Seq<u128>,
    entity: u64,
    i: int,
)
    ensures
        ({
            let targets = requests::packet_targets(lobbies, seats, host_uuid, connected, entity);
            let is_lobby = 0 <= i < lobbies.len() && lobbies[i].entity == entity && forall|j: int|
                0 <= j < i ==> (#[trigger] lobbies[j]).entity != entity;
            let no_lobby = forall|j: int|
                0 <= j < lobbies.len() ==> (#[trigger] lobbies[j]).entity != entity;
            let is_seat = 0 <= i < seats.len() && seats[i].entity == entity && forall|j: int|
                0 <= j < i ==> (#[trigger] seats[j]).entity != entity;
            let no_seat = forall|j: int|
                0 <= j < seats.len() ==> (#[trigger] seats[j]).entity != entity;
            &&& is_lobby && lobbies[i].hosted ==> targets == connected
            &&& is_lobby && !lobbies[i].hosted ==> forall|peer: u128| #[trigger]
                targets.contains(peer) == (connected.contains(peer) && (lobbies[i].host_uuid
                    == Some(peer) || lobbies[i].host_uuid is None && host_uuid == Some(peer)))
            &&& is_lobby && !lobbies[i].hosted ==> targets.len() <= 1
            &&& no_lobby && is_seat ==> targets == seq![seats[i].webrtc_uuid]
            &&& no_lobby && no_seat ==> targets.len() == 0
        }),
{
    let targets = requests::packet_targets(lobbies, seats, host_uuid, connected, entity);
    if 0 <= i < lobbies.len() && lobbies[i].entity == entity && forall|j: int|
        0 <= j < i ==> (#[trigger] lobbies[j]).entity != entity {
        lists::lemma_first(lobbies, requests::lobby_named(entity), i);
        if !lobbies[i].hosted {
            assert forall|peer: u128| #[trigger]
                targets.contains(peer) == (connected.contains(peer) && (lobbies[i].host_uuid
                    == Some(peer) || lobbies[i].host_uuid is None && host_uuid == Some(peer))) by {
                if targets.len() > 0 {
                    assert(targets[0] == targets[0]);
                    assert(targets.contains(targets[0]));
                }
            }
        }
    }
    if forall|j: int| 0 <= j < lobbies.len() ==> (#[trigger] lobbies[j]).entity != entity {
        lists::lemma_none_kept(lobbies, requests::lobby_named(entity));
        if 0 <= i < seats.len() && seats[i].entity == entity && forall|j: int|
            0 <= j < i ==> (#[trigger] seats[j]).entity != entity {
            lists::lemma_first(seats, requests::seat_named(entity), i);
        }
        if forall|j: int| 0 <= j < seats.len() ==> (#[trigger] seats[j]).entity != entity {
            lists::lemma_none_kept(seats, requests::seat_named(entity));
        }
    }
}

proof fn lemma_split(lobbies: Seq<LobbyEntity>)
    ensures
        lobbies.filter(requests::pending_is(true)).len() + lobbies.filter(
            requests::pending_is(false),
        ).len() == lobbies.len(),
    decreases lobbies.len(),
{
    reveal(Seq::filter);
    if lobbies.len() > 0 {
        lemma_split(lobbies.drop_last());
    }
}

/// Whether the name `entity` is that of a lobby that is pending, or of one that is not.
pub open spec fn names_a_lobby(lobbies: Seq<LobbyEntity>, entity: u64, pending: bool) -> bool {
    exists|i: int|
        0 <= i < lobbies.len() && (#[trigger] lobbies[i]).entity == entity && lobbies[i].pending
            == pending
}

/// Leaving takes every lobby away: first those that are pending, `waiting` of them, and then the
/// others.
pub proof fn law_leaving_takes_every_lobby_away(lobbies: Seq<LobbyEntity>) -> (waiting: int)
    ensures
        ({
            let gone = requests::left_lobbies(lobbies);
            &&& gone.len() == lobbies.len()
            &&& 0 <= waiting <= gone.len()
            &&& forall|k: int|
                0 <= k < gone.len() ==> names_a_lobby(lobbies, #[trigger] gone[k], k < waiting)
            &&& forall|i: int|
                0 <= i < lobbies.len() ==> gone.contains((#[trigger] lobbies[i]).entity)
        }),
{
    let pending = requests::pending_is(true);
    let active = requests::pending_is(false);
    let first = lobbies.filter(pending);
    let rest = lobbies.filter(active);
    let gone = requests::left_lobbies(lobbies);
    let waiting = first.len() as int;
    lemma_split(lobbies);
    assert forall|k: int| 0 <= k < gone.len() implies names_a_lobby(
        lobbies,
        #[trigger] gone[k],
        k < waiting,
    ) by {
        if k < waiting {
            lists::lemma_kept_is_part(lobbies, pending, k);
            let i = choose|i: int| 0 <= i < lobbies.len() && lobbies[i] == first[k];
            assert(lobbies[i].entity == gone[k]);
        } else {
            lists::lemma_kept_is_part(lobbies, active, k - waiting);
            let i = choose|i: int| 0 <= i < lobbies.len() && lobbies[i] == rest[k - waiting];
            assert(lobbies[i].entity == gone[k]);
        }
    }
    assert forall|i: int| 0 <= i < lobbies.len() implies gone.contains(
        (#[trigger] lobbies[i]).entity,
    ) by {
        if lobbies[i].pending {
            lists::lemma_fitting_is_kept(lobbies, pending, i);
            let k = choose|k: int| 0 <= k < first.len() && first[k] == lobbies[i];
            assert(gone[k] == lobbies[i].entity);
        } else {
            lists::lemma_fitting_is_kept(lobbies, active, i);
            let k = choose|k: int| 0 <= k < rest.len() && rest[k] == lobbies[i];
            assert(gone[k + waiting] == lobbies[i].entity);
        }
    }
    waiting
}

/// A pending lobby is given up exactly when it has been waited for as long as the deadline says,
/// counted from when it was first seen: a lobby to be hosted was not created then, and one to be
/// joined was not joined.
pub proof fn law_a_pending_lobby_has_its_deadline(lobby: LobbyEntity, now: u64, deadline: u64)
    ensures
        ({
            let step = requests::pending_step(lobby, now, deadline);
            &&& lobby.pending_since is None <==> step == PendingStep::Note
            &&& lobby.pending_since is Some && now < lobby.pending_since->0 + deadline <==> step
                == PendingStep::Wait
            &&& step is GiveUp ==> step == PendingStep::GiveUp(
                if lobby.hosted {
                    JoinFailure::NotCreated
                } else {
                    JoinFailure::NotJoined
                },
            )
        }),
{
}

/// The server hears that a lobby was left before every peer is disconnected, who this peer and its
/// host are is forgotten after that, and only then is the connection built anew.
pub proof fn law_a_lobby_is_left_in_order()
    ensures
        ({
            let steps = requests::leave_steps();
            &&& steps.len() == 5
            &&& steps.first() == LeaveStep::Send(ClientMessage::LeaveLobby)
            &&& steps[1] == LeaveStep::Apply(Effect::DisconnectAll)
            &&& steps.contains(LeaveStep::Apply(Effect::ForgetLocalId))
            &&& steps.contains(LeaveStep::Apply(Effect::ForgetHostUuid))
            &&& steps.last() == LeaveStep::Rebuild
        }),
{
    let steps = requests::leave_steps();
    assert(steps[2] == LeaveStep::Apply(Effect::ForgetLocalId));
    assert(steps[3] == LeaveStep::Apply(Effect::ForgetHostUuid));
}

/// What the server says reaches the lobby as it was said, but for what it relays between peers,
/// which reaches the peer that it is from by name.
pub proof fn law_the_servers_word_is_passed_on_whole(message: ServerMessage)
    ensures
        match (message, connection::dispatched(message)) {
            (ServerMessage::Welcome { player_uuid }, Dispatch::Lobby(event)) => event
                is Welcome && event->Welcome_player_uuid == player_uuid,
            (ServerMessage::PlayerJoined { player_uuid }, Dispatch::Lobby(event)) => event
                is PlayerJoined && event->PlayerJoined_player_uuid == player_uuid,
            (ServerMessage::PlayerLeft { player_uuid }, Dispatch::Lobby(event)) => event
                is PlayerLeft && event->PlayerLeft_player_uuid == player_uuid,
            (ServerMessage::Signal { sender_uuid, data }, Dispatch::Signal { sender, data: sent }) =>
            sender == sender_uuid && sent == data,
            (ServerMessage::LobbyCreated { lobby_id, code }, Dispatch::Lobby(event)) => event
                is LobbyCreated && event->LobbyCreated_lobby_id == lobby_id
                && event->LobbyCreated_code == code,
            (
                ServerMessage::LobbyJoined { lobby_id, host_uuid, existing_members },
                Dispatch::Lobby(event),
            ) => event is LobbyJoined && event->LobbyJoined_lobby_id == lobby_id
                && event->host_uuid == host_uuid && event->existing_members == existing_members,
            (ServerMessage::LobbyError { reason }, Dispatch::Lobby(event)) => event is LobbyError
                && event->LobbyError_reason == reason,
            (ServerMessage::LobbyList { lobbies }, Dispatch::Lobby(event)) => event is LobbyList
                && event->lobbies == lobbies,
            (ServerMessage::Disconnected { reason }, Dispatch::Lobby(event)) => event
                is Disconnected && event->Disconnected_reason == reason,
            (
                ServerMessage::LobbyMigratable { lobby_id: _, idle_timeout_secs },
                Dispatch::Lobby(event),
            ) => event is LobbyMigratable && event->idle_timeout_secs == idle_timeout_secs,
            (
                ServerMessage::HostChanged { lobby_id, previous_host, new_host, code, members },
                Dispatch::Lobby(event),
            ) => event == (LobbyEvent::HostChanged {
                lobby_id,
                previous_host,
                new_host,
                code,
                members,
            }),
            _ => false,
        },
{
}

/// A connection that opens is told this peer's name, and is open once that was sent. While it is
/// open every message of the server is delivered and every command sent; anything that cannot be
/// decoded, or encoded, is passed over.
pub proof fn law_an_open_connection_carries_everything(
    name: Seq<char>,
    input: ConnectionInput,
    step: ConnectionStep,
)
    ensures
        connection::step_for(ConnectionPhase::Opening, name, ConnectionInput::Opened, step) ==> step
            is Send && step->Send_0 is Authenticate && step->Send_0->Authenticate_display_name@
            == name,
        connection::phase_after(ConnectionPhase::Opening, ConnectionInput::Sent)
            == ConnectionPhase::Open,
        connection::step_for(ConnectionPhase::Open, name, input, step) ==> {
            &&& input matches ConnectionInput::Message(message) ==> step == ConnectionStep::Deliver(
                connection::dispatched(message),
            )
            &&& input matches ConnectionInput::Command(command) ==> step == ConnectionStep::Send(
                command,
            )
            &&& input is Noise || input is EncodeFailed || input is Sent || input is Opened ==> step
                == ConnectionStep::Wait
        },
        input is Message || input is Command || input is Noise || input is EncodeFailed || input
            is Sent || input is Opened ==> connection::phase_after(ConnectionPhase::Open, input)
            == ConnectionPhase::Open,
{
}

/// A connection that fails is over, and its loss is told; one that the game lets go of is over as
/// well, and that is no loss.
pub proof fn law_only_a_loss_is_told(
    phase: ConnectionPhase,
    name: Seq<char>,
    input: ConnectionInput,
    step: ConnectionStep,
)
    requires
        phase != ConnectionPhase::Over,
        connection::step_for(phase, name, input, step),
    ensures
        ({
            let lost = input is OpenFailed || input is SendFailed || input is Closed;
            let over = lost || input is CommandsEnded || (input is EncodeFailed && phase
                == ConnectionPhase::Opening);
            &&& (step == (ConnectionStep::Stop { lost: true })) == lost
            &&& step is Stop == over
            &&& (connection::phase_after(phase, input) == ConnectionPhase::Over) == over
        }),
{
}

/// What is said of a player that cannot be reached ends with the player's number, in brackets.
pub proof fn law_a_failed_player_is_named(peer: u128)
    ensures
        ({
            let said = outcome::failure_text(JoinFailure::PlayerUnreachable(peer));
            let digits = text::decimal_digits(peer as nat);
            &&& said.len() == digits.len() + 43
            &&& said.subrange(42, (42 + digits.len()) as int) == digits
            &&& said.last() == ')' && said[41] == '('
        }),
{
    reveal_strlit("A player could not connect to this lobby (");
    reveal_strlit(")");
    let said = outcome::failure_text(JoinFailure::PlayerUnreachable(peer));
    let digits = text::decimal_digits(peer as nat);
    assert(said.subrange(42, (42 + digits.len()) as int) =~= digits);
}

/// A lobby is asked for once for each that is to be hosted, each with the same number of players,
/// and for no other.
pub proof fn law_a_lobby_is_asked_for_once_each(earlier: Seq<bool>, hosted: bool, max_players: u32)
    ensures
        requests::creations(earlier.push(hosted), max_players) == if hosted {
            requests::creations(earlier, max_players).push(
                ClientMessage::CreateLobby { max_players },
            )
        } else {
            requests::creations(earlier, max_players)
        },
        requests::creations(Seq::empty(), max_players).len() == 0,
{
    reveal(Seq::filter);
    assert(earlier.push(hosted).drop_last() =~= earlier);
    let longer = requests::creations(earlier.push(hosted), max_players);
    let shorter = requests::creations(earlier, max_players);
    if hosted {
        assert(longer =~= shorter.push(ClientMessage::CreateLobby { max_players }));
    } else {
        assert(longer =~= shorter);
    }
}

/// The lobby that was asked for last is joined: a pending lobby is opened before the server is
/// asked. A guest, and who asked for nothing, joins none.
pub proof fn law_the_last_lobby_asked_for_is_joined(
    lobbies: Seq<LobbyEntity>,
    earlier: Seq<u64>,
    lobby_id: u64,
)
    ensures
        ({
            let guest = exists|i: int| 0 <= i < lobbies.len() && !(#[trigger] lobbies[i]).hosted;
            let steps = requests::join_steps(lobbies, earlier.push(lobby_id));
            &&& guest ==> steps.len() == 0
            &&& !guest ==> steps == seq![
                requests::JoinStep::SpawnPendingLobby,
                requests::JoinStep::Send(ClientMessage::JoinLobby { lobby_id }),
            ]
            &&& requests::join_steps(lobbies, Seq::empty()).len() == 0
        }),
{
    law_a_known_guest_speaks_up(lobbies);
}

/// Only a host closes a lobby, and only one that is active.
pub proof fn law_only_a_host_closes_its_lobby(lobbies: Seq<LobbyEntity>, wanted: usize)
    ensures
        requests::is_to_be_closed(lobbies, wanted) == (wanted > 0 && exists|i: int|
            0 <= i < lobbies.len() && (#[trigger] lobbies[i]).hosted && !lobbies[i].pending),
{
    let fits = world::hosted_lobby();
    lemma_found(lobbies, fits);
    if world::first_lobby(lobbies, fits) is Some {
        let i = choose|i: int| 0 <= i < lobbies.len() && fits(#[trigger] lobbies[i]);
        assert(lobbies[i].hosted && !lobbies[i].pending);
    }
    assert forall|i: int| 0 <= i < lobbies.len() && (#[trigger] lobbies[i]).hosted
        && !lobbies[i].pending implies world::first_lobby(lobbies, fits) is Some by {
        assert(fits(lobbies[i]));
    }
}

/// A peer that the server knows, on a connection that is there, says every twenty seconds that it is
/// still here, and in between, and otherwise, nothing.
pub proof fn law_a_peer_says_that_it_is_here(
    next_at: u64,
    local: Option<u128>,
    lost: bool,
    now: u64,
    later: u64,
)
    requires
        now + 20_000_000_000 <= u64::MAX,
        later + 20_000_000_000 <= u64::MAX,
    ensures
        ({
            let (sent, due) = requests::keep_alive(next_at, local, lost, now);
            let again = requests::keep_alive(due, local, lost, later).0;
            &&& local is None || lost ==> !sent && due == next_at
            &&& local is Some && !lost ==> sent == (now >= next_at)
            &&& sent ==> again == (later - now >= 20_000_000_000)
            &&& !sent ==> due == next_at
        }),
{
}

/// A server that was lost while no lobby is there is tried again every five seconds.
pub proof fn law_a_lost_server_is_tried_again(
    next_at: u64,
    lost: bool,
    known_lobbies: usize,
    now: u64,
    later: u64,
)
    requires
        now + 5_000_000_000 <= u64::MAX,
        later + 5_000_000_000 <= u64::MAX,
    ensures
        ({
            let (tried, due) = requests::rebuilding(next_at, lost, known_lobbies, now);
            let again = requests::rebuilding(due, lost, known_lobbies, later).0;
            &&& !lost || known_lobbies > 0 ==> !tried && due == next_at
            &&& lost && known_lobbies == 0 ==> tried == (now >= next_at)
            &&& tried ==> again == (later - now >= 5_000_000_000)
            &&& !tried ==> due == next_at
        }),
{
}

/// Every pending lobby is noted, waited for or given up, in order, and no other is; without a
/// timeout none is.
pub proof fn law_every_pending_lobby_is_timed(
    earlier: Seq<LobbyEntity>,
    lobby: LobbyEntity,
    now: u64,
    deadline: u64,
)
    ensures
        ({
            let before = requests::pending_updates(earlier, now, Some(deadline));
            let after = requests::pending_updates(earlier.push(lobby), now, Some(deadline));
            &&& !lobby.pending ==> after == before
            &&& lobby.pending ==> {
                &&& after.len() == before.len() + 1
                &&& after.drop_last() == before
                &&& after.last().entity == lobby.entity
                &&& after.last().step == requests::pending_step(lobby, now, deadline)
            }
            &&& requests::pending_updates(earlier, now, None).len() == 0
            &&& requests::pending_updates(Seq::empty(), now, Some(deadline)).len() == 0
        }),
{
    reveal(Seq::filter);
    assert(earlier.push(lobby).drop_last() =~= earlier);
    let before = requests::pending_updates(earlier, now, Some(deadline));
    let after = requests::pending_updates(earlier.push(lobby), now, Some(deadline));
    if lobby.pending {
        assert(after.drop_last() =~= before);
    } else {
        assert(after =~= before);
    }
}

/// Whoever loses a seat that was not pending is disconnected; they are told first exactly if the
/// seat's lobby is still there, active and hosted here.
pub proof fn law_a_kicked_player_is_told(lobbies: Seq<LobbyEntity>, seat: SeatEntity)
    ensures
        ({
            let removal = requests::seat_removal(lobbies, seat);
            let stands = seat.lobby is Some && exists|i: int|
                0 <= i < lobbies.len() && (#[trigger] lobbies[i]).entity == seat.lobby->0
                    && lobbies[i].hosted && !lobbies[i].pending;
            &&& removal is None == seat.pending
            &&& removal is Some ==> {
                &&& removal->0.disconnect == seat.webrtc_uuid
                &&& removal->0.tell == if stands {
                    Some(seat.player_uuid)
                } else {
                    None
                }
            }
        }),
{
    super::trust::law_a_kick_leaves_the_lobby(seat.lobby, lobbies);
}

/// Handshakes go to every peer that is connected, in order, each as the side that sends it, once
/// their time has come and while there is a lobby to speak of; else none goes out.
pub proof fn law_handshakes_reach_everybody(
    speaks: bool,
    connected: Seq<u128>,
    from_host: bool,
    cooldown: u64,
    elapsed: u64,
    i: int,
)
    ensures
        ({
            let sent = handshake::handshakes_due(speaks, connected, from_host, cooldown, elapsed);
            &&& !speaks || elapsed < cooldown ==> sent.len() == 0
            &&& speaks && elapsed >= cooldown ==> sent.len() == connected.len()
            &&& speaks && elapsed >= cooldown && 0 <= i < connected.len() ==> sent[i].to
                == connected[i] && sent[i].from_host == from_host
        }),
{
}

/// A host speaks up exactly while it hosts an active lobby that the server knows.
pub proof fn law_a_known_host_speaks_up(lobbies: Seq<LobbyEntity>)
    ensures
        handshake::is_known_host(lobbies) == exists|i: int|
            0 <= i < lobbies.len() && (#[trigger] lobbies[i]).hosted && !lobbies[i].pending
                && lobbies[i].lobby_id is Some,
{
    let fits = world::known_hosted_lobby();
    lemma_found(lobbies, fits);
    if handshake::is_known_host(lobbies) {
        let i = choose|i: int| 0 <= i < lobbies.len() && fits(#[trigger] lobbies[i]);
        assert(lobbies[i].hosted && !lobbies[i].pending && lobbies[i].lobby_id is Some);
    }
    assert forall|i: int| 0 <= i < lobbies.len() && (#[trigger] lobbies[i]).hosted
        && !lobbies[i].pending && lobbies[i].lobby_id is Some implies handshake::is_known_host(
        lobbies,
    ) by {
        assert(fits(lobbies[i]));
    }
}

/// The lobby that a guest is joining is promoted once one of the handshakes is its host's own word;
/// no other lobby is, and none by anybody else's.
pub proof fn law_a_guest_is_let_in_by_its_host(
    lobbies: Seq<LobbyEntity>,
    handshakes: Seq<ReceivedHandshake>,
    i: int,
)
    ensures
        ({
            let promoted = handshake::promoted_lobby(lobbies, handshakes);
            let joining = |lobby: LobbyEntity| lobby.pending && !lobby.hosted;
            let first = 0 <= i < lobbies.len() && joining(lobbies[i]) && forall|j: int|
                0 <= j < i ==> !joining(#[trigger] lobbies[j]);
            let said = lobbies[i].host_uuid is Some && exists|k: int|
                0 <= k < handshakes.len() && (#[trigger] handshakes[k]).from_host
                    && handshakes[k].sender == lobbies[i].host_uuid;
            &&& first ==> promoted == if said {
                Some(lobbies[i].entity)
            } else {
                None
            }
            &&& (forall|j: int| 0 <= j < lobbies.len() ==> !joining(#[trigger] lobbies[j]))
                ==> promoted is None
        }),
{
    let fits = world::pending_client_lobby();
    let joining = |lobby: LobbyEntity| lobby.pending && !lobby.hosted;
    if 0 <= i < lobbies.len() && joining(lobbies[i]) && forall|j: int|
        0 <= j < i ==> !joining(#[trigger] lobbies[j]) {
        assert forall|j: int| 0 <= j < i implies !fits(#[trigger] lobbies[j]) by {
            assert(!joining(lobbies[j]));
        }
        lists::lemma_first(lobbies, fits, i);
        let lobby = lobbies[i];
        assert forall|k: int| 0 <= k < handshakes.len() implies handshake::promotes(
            lobby,
            #[trigger] handshakes[k],
        ) == (lobby.host_uuid is Some && handshakes[k].from_host && handshakes[k].sender
            == lobby.host_uuid) by {}
    }
    if forall|j: int| 0 <= j < lobbies.len() ==> !joining(#[trigger] lobbies[j]) {
        assert forall|j: int| 0 <= j < lobbies.len() implies !fits(#[trigger] lobbies[j]) by {
            assert(!joining(lobbies[j]));
        }
        lists::lemma_none_kept(lobbies, fits);
    }
}

/// Seats are promoted in the one lobby that is hosted here, and nowhere where none is.
pub proof fn law_players_are_let_in_by_their_host(
    lobbies: Seq<LobbyEntity>,
    seats: Seq<SeatEntity>,
    handshakes: Seq<ReceivedHandshake>,
    i: int,
)
    ensures
        is_the_only_active(lobbies, true, i) ==> handshake::promoted_players(
            lobbies,
            seats,
            handshakes,
        ) == handshake::promoted_seats(seats, lobbies[i].entity, handshakes),
        (forall|j: int|
            0 <= j < lobbies.len() ==> !(#[trigger] lobbies[j]).hosted || lobbies[j].pending)
            ==> handshake::promoted_players(lobbies, seats, handshakes).len() == 0,
{
    law_one_hosted_lobby_is_meant(lobbies, i);
    if forall|j: int|
        0 <= j < lobbies.len() ==> !(#[trigger] lobbies[j]).hosted || lobbies[j].pending {
        lists::lemma_none_kept(lobbies, world::hosted_lobby());
    }
}

/// Every connected peer is pinged, in order and with the time of the frame, a second after the last
/// time at the earliest, as long as there is a lobby; the clock runs without one too.
pub proof fn law_everybody_is_pinged_every_second(
    lobbies: Seq<LobbyEntity>,
    connected: Seq<u128>,
    cooldown: u64,
    now: u64,
    elapsed: u64,
    i: int,
)
    ensures
        ({
            let pings = ping::pings_due(lobbies, connected, cooldown, now, elapsed);
            let left = ping::cooldown_after(cooldown, elapsed);
            &&& lobbies.len() == 0 || elapsed < cooldown ==> pings.len() == 0
            &&& lobbies.len() > 0 && elapsed >= cooldown ==> pings.len() == connected.len()
            &&& lobbies.len() > 0 && elapsed >= cooldown && 0 <= i < connected.len()
                ==> pings[i].to == connected[i] && pings[i].sent_at == now
            &&& elapsed >= cooldown ==> left == 1_000_000_000
            &&& elapsed < cooldown ==> left + elapsed == cooldown
        }),
{
}

} // verus!
