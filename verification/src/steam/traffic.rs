//! What goes over Steam between the players of a session: to whom, from whom, and what it leads
//! to; and which lobbies of friends there are to join.

use vstd::prelude::*;

use super::friends;
use super::friends::{Discovery, FriendGame, SteamFriendLobbySummary};
use super::handshake;
use super::handshake::ReceivedHandshake;
use super::outcomes;
use super::packets;
use super::packets::{PacketGate, PacketVerdict, Refusal};
use super::session;
use super::teardown::SteamEffect;
use super::trust;
use super::trust::PeerRole;
use super::world;
use super::world::{LobbyId, SteamCache, SteamId, SteamLobby, SteamSeat};
use crate::lists;
use crate::protocol::LobbyInfo;

verus! {

/// A packet is read on a host if a member of its lobby sent it, on a guest if its host did, and
/// without a lobby never; it is refused for what it lacks.
pub proof fn law_a_packet_is_refused_for_cause(gate: PacketGate, from: SteamId)
    ensures
        packets::refusal_of(None, from) == Some(Refusal::NoLobby),
        gate.role == PeerRole::Host ==> packets::refusal_of(Some(gate), from)
            == if gate.members@.contains(from) {
            None
        } else {
            Some(Refusal::NotAMember)
        },
        gate.role == PeerRole::Client ==> packets::refusal_of(Some(gate), from)
            == if gate.owner == Some(from) {
            None
        } else {
            Some(Refusal::NotTheHost)
        },
{
}

/// A lobby talks to the host that it is pinned to, and to the owner that Steam names only where it
/// is pinned to nobody. Whether it is on Steam is all that makes it one a peer reads from.
pub proof fn law_a_pinned_host_is_the_one_talked_to(
    steam: SteamCache,
    lobby: SteamLobby,
    lobby_id: LobbyId,
    host: SteamId,
)
    ensures
        packets::host_of(steam, lobby_id, Some(host)) == host,
        packets::host_of(steam, lobby_id, None) == steam.owner(lobby_id),
        (packets::on_steam())(lobby) == (lobby.lobby_id is Some),
        (handshake::hosted_on_steam())(lobby) == (lobby.hosted && !lobby.pending
            && lobby.lobby_id is Some),
        (session::client_lobby())(lobby) == !lobby.hosted,
{
}

/// A packet for a lobby goes, from its host, to every other member of it and to nobody else, and
/// from a guest to its host alone; one for a seat goes to the player in it, and one for anything
/// else nowhere.
pub proof fn law_a_packet_goes_to_whom_it_is_for(
    lobbies: Seq<SteamLobby>,
    seats: Seq<SteamSeat>,
    steam: SteamCache,
    local: SteamId,
    entity: u64,
    i: int,
)
    ensures
        ({
            let targets = packets::packet_targets(lobbies, seats, steam, local, entity);
            let names = |lobby: SteamLobby| lobby.entity == entity && lobby.lobby_id is Some;
            let is_lobby = 0 <= i < lobbies.len() && names(lobbies[i]) && forall|j: int|
                0 <= j < i ==> !names(#[trigger] lobbies[j]);
            let no_lobby = forall|j: int| 0 <= j < lobbies.len() ==> !names(#[trigger] lobbies[j]);
            let is_seat = 0 <= i < seats.len() && seats[i].entity == entity && forall|j: int|
                0 <= j < i ==> (#[trigger] seats[j]).entity != entity;
            let no_seat = forall|j: int|
                0 <= j < seats.len() ==> (#[trigger] seats[j]).entity != entity;
            let id = lobbies[i].lobby_id->0;
            &&& is_lobby && lobbies[i].hosted ==> targets is Some && forall|m: SteamId| #[trigger]
                targets->0.contains(m) == (steam.members(id).contains(m) && m != local)
            &&& is_lobby && !lobbies[i].hosted && lobbies[i].host is Some ==> targets == Some(
                seq![lobbies[i].host->0],
            )
            &&& is_lobby && !lobbies[i].hosted && lobbies[i].host is None ==> targets == Some(
                seq![steam.owner(id)],
            )
            &&& no_lobby && is_seat ==> targets == Some(seq![seats[i].steam_id])
            &&& no_lobby && no_seat ==> targets is None
        }),
{
    let names = |lobby: SteamLobby| lobby.entity == entity && lobby.lobby_id is Some;
    let fits = packets::lobby_named(entity);
    if 0 <= i < lobbies.len() && names(lobbies[i]) && forall|j: int|
        0 <= j < i ==> !names(#[trigger] lobbies[j]) {
        assert forall|j: int| 0 <= j < i implies !fits(#[trigger] lobbies[j]) by {
            assert(!names(lobbies[j]));
        }
        outcomes::lemma_first(lobbies, fits, i);
        if lobbies[i].hosted {
            let id = lobbies[i].lobby_id->0;
            let targets = packets::packet_targets(lobbies, seats, steam, local, entity)->0;
            assert forall|m: SteamId| #[trigger]
                targets.contains(m) == (steam.members(id).contains(m) && m != local) by {
                outcomes::lemma_filtered(steam.members(id), packets::others(local), m);
            }
        }
    }
    if forall|j: int| 0 <= j < lobbies.len() ==> !names(#[trigger] lobbies[j]) {
        assert forall|j: int| 0 <= j < lobbies.len() implies !fits(#[trigger] lobbies[j]) by {
            assert(!names(lobbies[j]));
        }
        lists::lemma_none_kept(lobbies, fits);
        if 0 <= i < seats.len() && seats[i].entity == entity && forall|j: int|
            0 <= j < i ==> (#[trigger] seats[j]).entity != entity {
            outcomes::lemma_first(seats, packets::seat_named(entity), i);
        }
        if forall|j: int| 0 <= j < seats.len() ==> (#[trigger] seats[j]).entity != entity {
            lists::lemma_none_kept(seats, packets::seat_named(entity));
        }
    }
}

/// A guest's handshakes go, for each lobby on Steam that is still to hear from its host, to that
/// host: while it is being joined, and while a successor is being reached.
pub proof fn law_a_guest_shakes_hands_until_it_is_heard(
    earlier: Seq<SteamLobby>,
    lobby: SteamLobby,
    steam: SteamCache,
)
    ensures
        ({
            let before = handshake::reached(earlier, steam);
            let after = handshake::reached(earlier.push(lobby), steam);
            let reaching = !lobby.hosted && lobby.lobby_id is Some && (lobby.pending
                || lobby.reaching_successor);
            &&& !reaching ==> after == before
            &&& reaching && lobby.host is Some ==> after == before.push(lobby.host->0)
            &&& reaching && lobby.host is None ==> after == before.push(
                steam.owner(lobby.lobby_id->0),
            )
            &&& handshake::reached(Seq::empty(), steam).len() == 0
        }),
{
    assert(earlier.push(lobby).drop_last() =~= earlier);
}

/// Whether a lobby is one that is being joined, on Steam, and whose host plays as `player`: the
/// host it is pinned to, or the owner where it is pinned to nobody.
pub open spec fn joins(lobby: SteamLobby, steam: SteamCache, player: u128) -> bool {
    &&& lobby.pending && !lobby.hosted
    &&& match (lobby.lobby_id, lobby.host) {
        (Some(_), Some(host)) => host.0 == player,
        (Some(id), None) => steam.owner(id).0 == player,
        _ => false,
    }
}

/// A handshake that says it is the host's promotes the lobby that is being joined and whose host
/// sent it; one that does not, or that nobody sent, promotes none.
pub proof fn law_the_hosts_own_word_promotes(
    lobbies: Seq<SteamLobby>,
    steam: SteamCache,
    sender: u128,
    from_host: bool,
    i: int,
)
    ensures
        ({
            let promoted = handshake::promoted_lobby(
                lobbies,
                steam,
                ReceivedHandshake { sender: Some(sender), from_host },
            );
            let first = 0 <= i < lobbies.len() && joins(lobbies[i], steam, sender) && forall|j: int|
                0 <= j < i ==> !joins(#[trigger] lobbies[j], steam, sender);
            let none = forall|j: int|
                0 <= j < lobbies.len() ==> !joins(#[trigger] lobbies[j], steam, sender);
            &&& first && from_host ==> promoted == Some(lobbies[i].entity)
            &&& none || !from_host ==> promoted is None
        }),
        handshake::promoted_lobby(
            lobbies,
            steam,
            ReceivedHandshake { sender: None, from_host },
        ) is None,
{
    let fits = handshake::joining_from(steam, sender);
    if 0 <= i < lobbies.len() && joins(lobbies[i], steam, sender) && forall|j: int|
        0 <= j < i ==> !joins(#[trigger] lobbies[j], steam, sender) {
        assert forall|j: int| 0 <= j < i implies !fits(#[trigger] lobbies[j]) by {
            assert(!joins(lobbies[j], steam, sender));
        }
        outcomes::lemma_first(lobbies, fits, i);
    }
    if forall|j: int| 0 <= j < lobbies.len() ==> !joins(#[trigger] lobbies[j], steam, sender) {
        assert forall|j: int| 0 <= j < lobbies.len() implies !fits(#[trigger] lobbies[j]) by {
            assert(!joins(lobbies[j], steam, sender));
        }
        lists::lemma_none_kept(lobbies, fits);
    }
}

/// A player's handshake promotes the seat that waits for that player in the one lobby that is
/// hosted here; one that says it is a host's promotes none.
pub proof fn law_a_ready_player_gets_its_seat(
    lobbies: Seq<SteamLobby>,
    seats: Seq<SteamSeat>,
    sender: u128,
    from_host: bool,
    hosted: int,
    i: int,
)
    requires
        outcomes::is_the_only_hosted(lobbies, hosted),
    ensures
        ({
            let promoted = handshake::promoted_seat(
                lobbies,
                seats,
                ReceivedHandshake { sender: Some(sender), from_host },
            );
            let waits = |seat: SteamSeat|
                seat.pending && seat.lobby == lobbies[hosted].entity && seat.player_uuid == sender;
            let first = 0 <= i < seats.len() && waits(seats[i]) && forall|j: int|
                0 <= j < i ==> !waits(#[trigger] seats[j]);
            let none = forall|j: int| 0 <= j < seats.len() ==> !waits(#[trigger] seats[j]);
            &&& first && !from_host ==> promoted == Some(seats[i].entity)
            &&& none || from_host ==> promoted is None
        }),
{
    let lobby = lobbies[hosted].entity;
    let fits = handshake::waiting_seat(lobby, sender);
    outcomes::lemma_hosted(lobbies, hosted);
    let waits = |seat: SteamSeat|
        seat.pending && seat.lobby == lobbies[hosted].entity && seat.player_uuid == sender;
    if 0 <= i < seats.len() && waits(seats[i]) && forall|j: int|
        0 <= j < i ==> !waits(#[trigger] seats[j]) {
        assert forall|j: int| 0 <= j < i implies !fits(#[trigger] seats[j]) by {
            assert(!waits(seats[j]));
        }
        outcomes::lemma_first(seats, fits, i);
    }
    if forall|j: int| 0 <= j < seats.len() ==> !waits(#[trigger] seats[j]) {
        assert forall|j: int| 0 <= j < seats.len() implies !fits(#[trigger] seats[j]) by {
            assert(!waits(seats[j]));
        }
        lists::lemma_none_kept(seats, fits);
    }
}

/// Nobody is promoted by a handshake where no lobby is hosted.
pub proof fn law_only_a_host_promotes_seats(
    lobbies: Seq<SteamLobby>,
    seats: Seq<SteamSeat>,
    handshake: ReceivedHandshake,
)
    requires
        outcomes::hosts_none(lobbies),
    ensures
        handshake::promoted_seat(lobbies, seats, handshake) is None,
{
    outcomes::lemma_hosted(lobbies, 0);
}

/// A friend that plays this game, in a lobby that no friend before is in, adds that lobby, under
/// the friend's name and with nobody counted yet; any other friend adds nothing.
pub proof fn law_a_friend_adds_its_lobby(earlier: Seq<FriendGame>, friend: FriendGame, app_id: u32)
    ensures
        ({
            let before = friends::lobbies_of(earlier, app_id);
            let after = friends::lobbies_of(earlier.push(friend), app_id);
            let known = exists|i: int|
                0 <= i < earlier.len() && (#[trigger] earlier[i]).lobby == friend.lobby
                    && earlier[i].app_id == app_id;
            if friend.app_id == app_id && friend.lobby.0 != 0 && !known {
                after == before.push(
                    SteamFriendLobbySummary {
                        lobby_id: friend.lobby,
                        host_name: friend.name,
                        member_count: 0,
                    },
                )
            } else {
                after == before
            }
        }),
        friends::lobbies_of(Seq::empty(), app_id).len() == 0,
{
    assert(earlier.push(friend).drop_last() =~= earlier);
    if friend.lobby.0 != 0 {
        lemma_listed(earlier, app_id, friend.lobby);
    }
}

proof fn lemma_listed(friends: Seq<FriendGame>, app_id: u32, lobby: LobbyId)
    requires
        lobby.0 != 0,
    ensures
        friends::is_listed(friends::lobbies_of(friends, app_id), lobby) == exists|i: int|
            0 <= i < friends.len() && (#[trigger] friends[i]).lobby == lobby && friends[i].app_id
                == app_id,
    decreases friends.len(),
{
    if friends.len() > 0 {
        let earlier = friends.drop_last();
        let friend = friends.last();
        lemma_listed(earlier, app_id, lobby);
        let before = friends::lobbies_of(earlier, app_id);
        let after = friends::lobbies_of(friends, app_id);
        if friends::is_listed(before, lobby) {
            let k = choose|k: int| 0 <= k < before.len() && (#[trigger] before[k]).lobby_id == lobby;
            assert(after[k].lobby_id == lobby);
            let i = choose|i: int|
                0 <= i < earlier.len() && (#[trigger] earlier[i]).lobby == lobby
                    && earlier[i].app_id == app_id;
            assert(friends[i] == earlier[i]);
        } else {
            assert forall|i: int| 0 <= i < earlier.len() implies !((#[trigger] friends[i]).lobby
                == lobby && friends[i].app_id == app_id) by {
                assert(friends[i] == earlier[i]);
            }
            let last = friends[friends.len() - 1];
            assert(last == friend);
            if friend.lobby == lobby && friend.app_id == app_id {
                assert(after[before.len() as int].lobby_id == lobby);
            } else {
                assert forall|k: int| 0 <= k < after.len() implies (#[trigger] after[k]).lobby_id
                    != lobby by {
                    if k < before.len() {
                        assert(before[k].lobby_id != lobby);
                    }
                }
            }
        }
    }
}

/// What Steam says of a lobby counts its members, under the name it has, and leaves every other
/// lobby as it was; a lobby of which nothing is to be had is taken off the list, alone.
pub proof fn law_a_counted_lobby_stays_listed(
    summaries: Seq<SteamFriendLobbySummary>,
    lobby: LobbyId,
    member_count: usize,
    i: int,
)
    requires
        0 <= i < summaries.len(),
    ensures
        ({
            let counted = friends::updated(summaries, lobby, true, member_count);
            &&& counted.len() == summaries.len()
            &&& counted[i].lobby_id == summaries[i].lobby_id
            &&& counted[i].host_name == summaries[i].host_name
            &&& counted[i].member_count == if summaries[i].lobby_id == lobby {
                member_count
            } else {
                summaries[i].member_count
            }
        }),
        friends::updated(summaries, lobby, false, member_count).contains(summaries[i]) == (
        summaries[i].lobby_id != lobby),
        forall|k: int|
            0 <= k < friends::updated(summaries, lobby, false, member_count).len()
                ==> summaries.contains(
                #[trigger] friends::updated(summaries, lobby, false, member_count)[k],
            ),
{
    let fits = friends::other_than(lobby);
    outcomes::lemma_filtered(summaries, fits, summaries[i]);
    assert(summaries.contains(summaries[i]));
    let kept = friends::updated(summaries, lobby, false, member_count);
    assert forall|k: int| 0 <= k < kept.len() implies summaries.contains(#[trigger] kept[k]) by {
        lists::lemma_kept_is_part(summaries, fits, k);
    }
}

/// The list is published once every lobby on it has somebody in it, and not before.
pub proof fn law_an_uncounted_lobby_is_waited_for(summaries: Seq<SteamFriendLobbySummary>, i: int)
    requires
        0 <= i < summaries.len(),
        summaries[i].member_count == 0,
    ensures
        !friends::all_hydrated(summaries),
{
}

/// A peer reads, by the first of its lobbies that is on Steam: as its host the members of that
/// lobby, as a guest the host it is pinned to, or the owner where it is pinned to nobody. Without
/// such a lobby it reads nobody.
pub proof fn law_a_gate_stands_for_a_lobby(
    lobbies: Seq<SteamLobby>,
    steam: SteamCache,
    gate: Option<PacketGate>,
    i: int,
    from: SteamId,
)
    requires
        packets::is_gate_of(lobbies, steam, gate),
    ensures
        ({
            let reads = packets::refusal_of(gate, from) is None;
            let first = 0 <= i < lobbies.len() && lobbies[i].lobby_id is Some && forall|j: int|
                0 <= j < i ==> (#[trigger] lobbies[j]).lobby_id is None;
            let id = lobbies[i].lobby_id->0;
            &&& first && lobbies[i].hosted ==> reads == steam.members(id).contains(from)
            &&& first && lobbies[i].hosted ==> gate->0.owner is None
            &&& first && !lobbies[i].hosted ==> gate->0.members@.len() == 0
            &&& first && !lobbies[i].hosted && lobbies[i].host is Some ==> reads == (lobbies[i].host
                == Some(from))
            &&& first && !lobbies[i].hosted && lobbies[i].host is None ==> reads == (steam.owner(id)
                == from)
            &&& (forall|j: int| 0 <= j < lobbies.len() ==> (#[trigger] lobbies[j]).lobby_id is None)
                ==> !reads
        }),
{
    let fits = packets::on_steam();
    if 0 <= i < lobbies.len() && lobbies[i].lobby_id is Some && forall|j: int|
        0 <= j < i ==> (#[trigger] lobbies[j]).lobby_id is None {
        outcomes::lemma_first(lobbies, fits, i);
    }
    if forall|j: int| 0 <= j < lobbies.len() ==> (#[trigger] lobbies[j]).lobby_id is None {
        lists::lemma_none_kept(lobbies, fits);
    }
}

/// A packet that is not refused is read; on a host, whoever sent it and has no seat gets one first,
/// in the lobby that is hosted, and on a guest nothing is done for it.
pub proof fn law_whoever_is_read_has_a_seat(
    lobbies: Seq<SteamLobby>,
    seats: Seq<SteamSeat>,
    gate: PacketGate,
    from: SteamId,
    verdict: PacketVerdict,
    i: int,
)
    requires
        packets::is_verdict_on(lobbies, seats, Some(gate), from, verdict),
        0 <= i < lobbies.len(),
        lobbies[i].hosted && !lobbies[i].pending,
        forall|j: int| 0 <= j < i ==> !((#[trigger] lobbies[j]).hosted && !lobbies[j].pending),
    ensures
        ({
            let host = gate.role == PeerRole::Host;
            let refusal = packets::refusal_of(Some(gate), from);
            &&& refusal is Some ==> verdict == PacketVerdict::Refuse(refusal->0)
            &&& refusal is None ==> verdict is Read
            &&& refusal is None && host && !outcomes::is_seated(seats, from)
                ==> verdict->Read_0@ == seq![
                SteamEffect::SpawnSeat {
                    lobby: lobbies[i].entity,
                    steam_id: from,
                    player_uuid: from.0 as u128,
                },
            ]
            &&& refusal is None && (!host || outcomes::is_seated(seats, from))
                ==> verdict->Read_0@.len() == 0
        }),
{
    outcomes::lemma_first(lobbies, world::hosted_lobby(), i);
    outcomes::lemma_seated(seats, from);
}

/// A host's handshakes go to every other member of the first lobby on Steam that it hosts, and to
/// nobody else; who hosts none sends none. They go out half a second apart.
pub proof fn law_a_host_shakes_hands_with_every_member(
    lobbies: Seq<SteamLobby>,
    steam: SteamCache,
    local: SteamId,
    i: int,
    user: SteamId,
    cooldown: u64,
    elapsed: u64,
)
    ensures
        ({
            let targets = handshake::host_targets(lobbies, steam, local);
            let hosts = |lobby: SteamLobby|
                lobby.hosted && !lobby.pending && lobby.lobby_id is Some;
            let first = 0 <= i < lobbies.len() && hosts(lobbies[i]) && forall|j: int|
                0 <= j < i ==> !hosts(#[trigger] lobbies[j]);
            &&& first ==> targets.contains(user) == (steam.members(lobbies[i].lobby_id->0).contains(
                user,
            ) && user != local)
            &&& (forall|j: int| 0 <= j < lobbies.len() ==> !hosts(#[trigger] lobbies[j]))
                ==> targets.len() == 0
        }),
        elapsed >= cooldown ==> handshake::cooldown_after(cooldown, elapsed) == 500_000_000,
        elapsed < cooldown ==> handshake::cooldown_after(cooldown, elapsed) + elapsed == cooldown,
{
    let fits = handshake::hosted_on_steam();
    let hosts = |lobby: SteamLobby| lobby.hosted && !lobby.pending && lobby.lobby_id is Some;
    if 0 <= i < lobbies.len() && hosts(lobbies[i]) && forall|j: int|
        0 <= j < i ==> !hosts(#[trigger] lobbies[j]) {
        assert forall|j: int| 0 <= j < i implies !fits(#[trigger] lobbies[j]) by {
            assert(!hosts(lobbies[j]));
        }
        outcomes::lemma_first(lobbies, fits, i);
        outcomes::lemma_filtered(
            steam.members(lobbies[i].lobby_id->0),
            packets::others(local),
            user,
        );
    }
    if forall|j: int| 0 <= j < lobbies.len() ==> !hosts(#[trigger] lobbies[j]) {
        assert forall|j: int| 0 <= j < lobbies.len() implies !fits(#[trigger] lobbies[j]) by {
            assert(!hosts(lobbies[j]));
        }
        lists::lemma_none_kept(lobbies, fits);
    }
}

/// A session is opened with the members of the lobby that this peer is in, and with nobody else;
/// without a lobby with nobody, nor with one who is not named.
pub proof fn law_only_members_open_sessions(
    steam: SteamCache,
    lobby: LobbyId,
    requester: SteamId,
    somewhere: Option<LobbyId>,
    somebody: Option<SteamId>,
)
    ensures
        trust::accepts(steam, Some(lobby), Some(requester)) == steam.members(lobby).contains(
            requester,
        ),
        !trust::accepts(steam, None, somebody),
        !trust::accepts(steam, somewhere, None),
{
}

/// The lobby that was asked for last is joined, by who has no lobby as a guest and is on the way
/// into none; anybody else joins none.
pub proof fn law_the_last_lobby_asked_for_is_joined(
    lobbies: Seq<SteamLobby>,
    earlier: Seq<LobbyId>,
    lobby: LobbyId,
)
    ensures
        ({
            let guest = exists|i: int| 0 <= i < lobbies.len() && !(#[trigger] lobbies[i]).hosted;
            let effects = session::join_effects(lobbies, earlier.push(lobby));
            &&& guest ==> effects.len() == 0
            &&& !guest ==> effects == seq![
                SteamEffect::SpawnPendingLobby,
                SteamEffect::JoinLobby(lobby),
            ]
            &&& session::join_effects(lobbies, Seq::empty()).len() == 0
        }),
{
    let fits = session::client_lobby();
    outcomes::lemma_found(lobbies, fits);
    if world::first(lobbies, fits) is Some {
        let i = choose|i: int| 0 <= i < lobbies.len() && fits(#[trigger] lobbies[i]);
        assert(!lobbies[i].hosted);
    }
    assert forall|i: int| 0 <= i < lobbies.len() && !(
    #[trigger] lobbies[i]).hosted implies world::first(lobbies, fits) is Some by {
        assert(fits(lobbies[i]));
    }
}

/// Friends' lobbies are looked for only while no list of them is there or on its way. Where a
/// friend is in one, Steam is asked of the lobbies that friends are in; where none is, the list is
/// published as it is.
pub proof fn law_friends_are_looked_for_once(
    listed: bool,
    waiting: bool,
    friends: Seq<FriendGame>,
    app_id: u32,
    discovery: Discovery,
)
    requires
        friends::is_found(listed, waiting, friends, app_id, discovery),
    ensures
        ({
            let joinable = exists|i: int|
                0 <= i < friends.len() && (#[trigger] friends[i]).app_id == app_id
                    && friends[i].lobby.0 != 0;
            let looked = !listed && !waiting;
            &&& discovery is Idle == !looked
            &&& discovery is Publish == (looked && !joinable)
            &&& discovery is Ask == (looked && joinable)
            &&& discovery is Ask ==> discovery->Ask_0@ == friends::lobbies_of(friends, app_id)
        }),
{
    lemma_some_lobby(friends, app_id);
}

proof fn lemma_some_lobby(friends: Seq<FriendGame>, app_id: u32)
    ensures
        (friends::lobbies_of(friends, app_id).len() > 0) == exists|i: int|
            0 <= i < friends.len() && (#[trigger] friends[i]).app_id == app_id
                && friends[i].lobby.0 != 0,
    decreases friends.len(),
{
    if friends.len() > 0 {
        let earlier = friends.drop_last();
        let last = friends[friends.len() - 1];
        lemma_some_lobby(earlier, app_id);
        if friends::lobbies_of(earlier, app_id).len() > 0 {
            let i = choose|i: int|
                0 <= i < earlier.len() && (#[trigger] earlier[i]).app_id == app_id
                    && earlier[i].lobby.0 != 0;
            assert(friends[i].app_id == app_id && friends[i].lobby.0 != 0);
        } else {
            assert forall|i: int| 0 <= i < friends.len() - 1 implies !((
            #[trigger] friends[i]).app_id == app_id && friends[i].lobby.0 != 0) by {
                assert(earlier[i] == friends[i]);
            }
            assert(last == friends.last());
        }
    }
}

/// A friend's lobby is shown under its own id and the friend's name, with no code, as many players
/// as it has, and room for eight.
pub proof fn law_a_friends_lobby_is_shown_as_it_is(
    lobby: SteamFriendLobbySummary,
    public: LobbyInfo,
)
    requires
        friends::is_shown_as(lobby, public),
        lobby.member_count <= u32::MAX,
    ensures
        public.lobby_id == lobby.lobby_id.0,
        public.code@.len() == 0,
        public.host_name@ == lobby.host_name@,
        public.player_count == lobby.member_count,
        public.max_players == 8,
{
}

} // verus!
