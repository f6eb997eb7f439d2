//! Sessions over Steam.

use ensemble::steam::events::{react_to_event, react_to_events, MemberChange, SteamEvent};
use ensemble::steam::friends::{
    hydrate_friend_lobbies, populate_friend_lobbies, publish_public_lobbies, refresh_lobbies,
    Discovery, FriendGame,
};
use ensemble::steam::handshake::{
    promote_client_lobby_on_host_handshake, promote_host_client_on_client_handshake,
    send_client_handshakes, send_host_handshakes, HandshakeTimer, ReceivedHandshake,
};
use ensemble::steam::owner::{
    end_replaced_host, end_replaced_hosts, follow_lobby_owner, follow_lobby_owners,
    steam_host_migration, take_owner_step, HostMigratable, OwnerStep,
};
use ensemble::steam::packets::{
    judge_packet, packet_gate, refuse_packet, send_flags, send_serialized_lobby_packet,
    PacketVerdict, Refusal, SendFlags,
};
use ensemble::steam::session::{
    close_lobby, join_requested_lobbies, leave_lobby, CLOSED_LOBBY_KEY, DEFAULT_STEAM_APP_ID,
};
use ensemble::steam::teardown::{
    end_lobby, forget_lobby, JoinFailure, LobbyLeftReason, SteamEffect,
};
use ensemble::steam::trust::{
    accept_packet, accept_session_request, on_session_request, owner_change, replaced_as_host,
    OwnerChange, PeerRole,
};
use ensemble::steam::world::{
    LobbyId, SteamCache, SteamId, SteamLobby, SteamLobbyRecord, SteamSeat, SteamWorld,
};
use ensemble::transport::SendMode;

fn id(raw: u64) -> SteamId {
    SteamId::from_raw(raw)
}

const LOBBY: LobbyId = LobbyId(77);

fn cache(owner: u64, members: &[u64], closed: bool) -> SteamCache {
    SteamCache {
        records: vec![SteamLobbyRecord {
            lobby: LOBBY,
            owner: id(owner),
            members: members.iter().map(|member| id(*member)).collect(),
            closed,
        }],
    }
}

fn client_lobby(host: u64) -> SteamLobby {
    SteamLobby {
        entity: 10,
        pending: false,
        hosted: false,
        requested: false,
        lobby_id: Some(LOBBY),
        host: Some(id(host)),
        migratable: true,
        reaching_successor: false,
    }
}

fn hosted_lobby() -> SteamLobby {
    SteamLobby { hosted: true, host: None, ..client_lobby(0) }
}

fn seat(entity: u64, user: u64, pending: bool) -> SteamSeat {
    SteamSeat { entity, lobby: 10, steam_id: id(user), player_uuid: user as u128, pending }
}

fn world(lobbies: Vec<SteamLobby>, seats: Vec<SteamSeat>) -> SteamWorld {
    SteamWorld { lobbies, seats }
}

#[test]
fn a_session_request_from_a_non_member_is_refused() {
    assert!(!accept_session_request(&[id(1), id(2)], id(3)));
    assert!(
        !accept_session_request(&[], id(3)),
        "with no lobby there are no members, so nobody gets a session"
    );
}

#[test]
fn a_session_request_from_a_member_is_accepted() {
    assert!(accept_session_request(&[id(1), id(2)], id(2)));
}

#[test]
fn a_client_decodes_only_the_lobby_owner() {
    let members = [id(1), id(2), id(3)];
    assert!(accept_packet(PeerRole::Client, Some(id(1)), &members, id(1)));
    assert!(
        !accept_packet(PeerRole::Client, Some(id(1)), &members, id(2)),
        "a fellow member is not the host, even though it is in the lobby"
    );
    assert!(
        !accept_packet(PeerRole::Client, None, &members, id(1)),
        "a client that does not know its host yet trusts nobody"
    );
}

#[test]
fn an_unchanged_owner_is_not_a_migration() {
    assert_eq!(owner_change(id(1), id(1), id(2)), OwnerChange::Unchanged);
}

#[test]
fn an_owner_of_zero_names_nobody() {
    assert_eq!(owner_change(id(1), id(0), id(2)), OwnerChange::Unchanged);
    assert!(
        !replaced_as_host(id(0), id(2)),
        "a host whose lobby Steam has no owner for is not replaced by nobody"
    );
}

#[test]
fn this_peer_named_owner_promotes() {
    assert_eq!(owner_change(id(1), id(2), id(2)), OwnerChange::Promote);
}

#[test]
fn another_member_named_owner_is_followed() {
    assert_eq!(owner_change(id(1), id(3), id(2)), OwnerChange::Follow(id(3)));
}

#[test]
fn after_repinning_only_the_new_owner_is_decoded() {
    let members = [id(2), id(3)];
    let OwnerChange::Follow(new_owner) = owner_change(id(1), id(3), id(2)) else {
        panic!("another member named owner is followed");
    };
    assert!(accept_packet(PeerRole::Client, Some(new_owner), &members, id(3)));
    assert!(
        !accept_packet(PeerRole::Client, Some(new_owner), &members, id(1)),
        "the old host's packets are dropped once the pin moves"
    );
}

#[test]
fn a_host_steam_names_someone_else_owner_of_was_replaced() {
    assert!(replaced_as_host(id(3), id(2)));
    assert!(!replaced_as_host(id(2), id(2)));
}

#[test]
fn a_host_decodes_only_members() {
    let members = [id(1), id(2)];
    assert!(accept_packet(PeerRole::Host, None, &members, id(2)));
    assert!(!accept_packet(PeerRole::Host, None, &members, id(3)));
    assert!(!accept_packet(PeerRole::Host, None, &[], id(1)));
}

#[test]
fn a_session_opens_only_into_the_current_lobby() {
    let steam = cache(1, &[1, 2], false);
    assert!(on_session_request(&steam, Some(LOBBY), Some(id(2))));
    assert!(!on_session_request(&steam, Some(LOBBY), Some(id(3))));
    assert!(!on_session_request(&steam, None, Some(id(2))));
    assert!(!on_session_request(&steam, Some(LOBBY), None));
    assert!(!on_session_request(&steam, Some(LobbyId(5)), Some(id(2))));
}

#[test]
fn the_default_app_is_the_public_test_app() {
    assert_eq!(DEFAULT_STEAM_APP_ID, 480);
}

#[test]
fn a_created_lobby_is_promoted_and_a_refused_one_despawned() {
    let pending = SteamLobby {
        pending: true,
        requested: true,
        lobby_id: None,
        ..hosted_lobby()
    };
    let session = world(vec![pending], vec![]);
    let steam = cache(1, &[1], false);
    let created = react_to_event(
        &session,
        &steam,
        id(1),
        SteamEvent::LobbyCreated { result: 1, lobby: LOBBY },
    );
    assert_eq!(
        created,
        vec![
            SteamEffect::SetLocalId(1),
            SteamEffect::SetHostUuid(1),
            SteamEffect::SetCurrentLobby(Some(LOBBY)),
            SteamEffect::PromoteHosted { entity: 10, lobby_id: LOBBY },
        ]
    );
    let refused = react_to_event(
        &session,
        &steam,
        id(1),
        SteamEvent::LobbyCreated { result: 2, lobby: LOBBY },
    );
    assert_eq!(
        refused,
        vec![
            SteamEffect::DespawnLobby(10),
            SteamEffect::JoinFailed(JoinFailure::NotCreated(2)),
        ]
    );
}

#[test]
fn entering_a_lobby_pins_its_owner() {
    let joining = SteamLobby {
        pending: true,
        lobby_id: None,
        host: None,
        migratable: false,
        ..client_lobby(0)
    };
    let session = world(vec![joining], vec![]);
    let steam = cache(9, &[9, 2], false);
    let entered = react_to_event(
        &session,
        &steam,
        id(2),
        SteamEvent::LobbyEnter { lobby: LOBBY, refused: None },
    );
    assert_eq!(
        entered,
        vec![
            SteamEffect::SetLocalId(2),
            SteamEffect::SetHostUuid(9),
            SteamEffect::SetCurrentLobby(Some(LOBBY)),
            SteamEffect::AttachJoined { entity: 10, lobby_id: LOBBY, host: id(9) },
        ]
    );
    let refused = react_to_event(
        &session,
        &steam,
        id(2),
        SteamEvent::LobbyEnter { lobby: LOBBY, refused: Some("Full".to_string()) },
    );
    assert_eq!(
        refused,
        vec![
            SteamEffect::DespawnLobby(10),
            SteamEffect::JoinFailed(JoinFailure::Refused("Full".to_string())),
        ]
    );
    // A lobby that has entered already is not entered again.
    let hosting = world(vec![hosted_lobby()], vec![]);
    let ignored = react_to_event(
        &hosting,
        &steam,
        id(2),
        SteamEvent::LobbyEnter { lobby: LOBBY, refused: None },
    );
    assert!(ignored.is_empty());
}

#[test]
fn an_overlay_join_is_ignored_inside_a_lobby() {
    let steam = cache(1, &[1, 2], false);
    let free = react_to_event(
        &world(vec![], vec![]),
        &steam,
        id(2),
        SteamEvent::JoinRequested { lobby: LOBBY },
    );
    assert_eq!(free, vec![SteamEffect::SpawnPendingLobby, SteamEffect::JoinLobby(LOBBY)]);
    let busy = react_to_event(
        &world(vec![client_lobby(1)], vec![]),
        &steam,
        id(2),
        SteamEvent::JoinRequested { lobby: LOBBY },
    );
    assert!(busy.is_empty());
}

fn changed(user: u64, change: MemberChange) -> SteamEvent {
    SteamEvent::MemberChanged { lobby: LOBBY, user: id(user), change }
}

#[test]
fn a_member_entering_a_hosted_lobby_gets_one_seat() {
    let steam = cache(1, &[1, 2], false);
    let opened = react_to_event(
        &world(vec![hosted_lobby()], vec![]),
        &steam,
        id(1),
        changed(2, MemberChange::Entered),
    );
    assert_eq!(
        opened,
        vec![SteamEffect::SpawnSeat { lobby: 10, steam_id: id(2), player_uuid: 2 }]
    );
    let seated = react_to_event(
        &world(vec![hosted_lobby()], vec![seat(20, 2, true)]),
        &steam,
        id(1),
        changed(2, MemberChange::Entered),
    );
    assert!(seated.is_empty(), "one seat each");
}

#[test]
fn a_frames_events_are_answered_in_order() {
    let session = world(vec![hosted_lobby()], vec![seat(20, 5, true)]);
    let steam = cache(1, &[1, 5, 6], false);
    let events = || vec![changed(6, MemberChange::Entered), changed(5, MemberChange::Left)];
    let one_by_one: Vec<SteamEffect> = events()
        .into_iter()
        .flat_map(|event| react_to_event(&session, &steam, id(1), event))
        .collect();
    assert!(one_by_one.contains(&SteamEffect::DespawnSeat(20)));
    assert_eq!(react_to_events(&session, &steam, id(1), events()), one_by_one);
    assert_eq!(react_to_events(&session, &steam, id(1), vec![]), vec![]);
}

#[test]
fn a_member_leaving_a_hosted_lobby_loses_its_seat() {
    let steam = cache(1, &[1], false);
    let connected = react_to_event(
        &world(vec![hosted_lobby()], vec![seat(20, 2, false)]),
        &steam,
        id(1),
        changed(2, MemberChange::Left),
    );
    assert_eq!(connected, vec![SteamEffect::DespawnSeat(20)]);
    let waiting = react_to_event(
        &world(vec![hosted_lobby()], vec![seat(20, 2, true)]),
        &steam,
        id(1),
        changed(2, MemberChange::Disconnected),
    );
    assert_eq!(
        waiting,
        vec![
            SteamEffect::DespawnSeat(20),
            SteamEffect::ParticipantDeparted { lobby: 10, player_uuid: 2 },
        ]
    );
}

#[test]
fn the_host_leaving_is_waited_out_unless_it_closed_the_lobby() {
    let session = world(vec![client_lobby(1)], vec![]);
    let waiting = react_to_event(
        &session,
        &cache(1, &[2, 3], false),
        id(2),
        changed(1, MemberChange::Left),
    );
    assert_eq!(waiting, vec![SteamEffect::HostLost(10)]);
    let named = react_to_event(
        &session,
        &cache(3, &[2, 3], false),
        id(2),
        changed(1, MemberChange::Left),
    );
    assert!(named.is_empty(), "the new owner is followed this frame");
    let closed = react_to_event(
        &session,
        &cache(1, &[2, 3], true),
        id(2),
        changed(1, MemberChange::Left),
    );
    assert_eq!(
        closed,
        vec![
            SteamEffect::CloseSession(id(1)),
            SteamEffect::LeaveLobby(LOBBY),
            SteamEffect::EndLobby { entity: 10, promoted: true, reason: LobbyLeftReason::HostGone },
        ]
    );
}

#[test]
fn being_removed_is_a_kick_and_dropping_out_is_not() {
    let session = world(vec![client_lobby(1)], vec![]);
    let steam = cache(1, &[1], false);
    for (change, reason) in [
        (MemberChange::Kicked, LobbyLeftReason::Kicked),
        (MemberChange::Banned, LobbyLeftReason::Kicked),
        (MemberChange::Disconnected, LobbyLeftReason::HostGone),
    ] {
        let effects = react_to_event(&session, &steam, id(2), changed(2, change));
        assert_eq!(
            effects[2],
            SteamEffect::EndLobby { entity: 10, promoted: true, reason }
        );
    }
}

#[test]
fn another_member_leaving_takes_no_lobby_down() {
    let effects = react_to_event(
        &world(vec![client_lobby(1)], vec![]),
        &cache(1, &[1, 2], false),
        id(2),
        changed(3, MemberChange::Left),
    );
    assert_eq!(effects, vec![SteamEffect::ParticipantDeparted { lobby: 10, player_uuid: 3 }]);
}

#[test]
fn a_failed_session_is_decided_by_membership() {
    let session = world(vec![client_lobby(1)], vec![]);
    let failed = || SteamEvent::SessionFailed { remote: Some(id(1)) };
    let still_there = react_to_event(&session, &cache(1, &[1, 2], false), id(2), failed());
    assert!(still_there.is_empty(), "the next send opens a new session");
    let gone = react_to_event(&session, &cache(1, &[2], false), id(2), failed());
    assert_eq!(gone, vec![SteamEffect::HostLost(10)]);
    let fixed = SteamLobby { migratable: false, ..client_lobby(1) };
    let ended = react_to_event(
        &world(vec![fixed], vec![]),
        &cache(1, &[2], false),
        id(2),
        failed(),
    );
    assert_eq!(ended.len(), 3);
    let hosting = react_to_event(
        &world(vec![hosted_lobby()], vec![seat(20, 2, false)]),
        &cache(1, &[1, 2], false),
        id(1),
        SteamEvent::SessionFailed { remote: Some(id(2)) },
    );
    assert_eq!(hosting, vec![SteamEffect::DespawnSeat(20)]);
    let nobody = react_to_event(
        &session,
        &cache(1, &[2], false),
        id(2),
        SteamEvent::SessionFailed { remote: None },
    );
    assert!(nobody.is_empty());
}

#[test]
fn a_lobby_ends_once_and_says_how() {
    assert!(end_lobby(10, false, true, LobbyLeftReason::Kicked).is_empty());
    assert_eq!(
        end_lobby(10, true, true, LobbyLeftReason::Kicked),
        vec![
            SteamEffect::DespawnLobby(10),
            SteamEffect::LobbyLeft(LobbyLeftReason::Kicked),
        ]
    );
    assert_eq!(
        end_lobby(10, true, false, LobbyLeftReason::HostGone),
        vec![
            SteamEffect::DespawnLobby(10),
            SteamEffect::JoinFailed(JoinFailure::EndedEarly(LobbyLeftReason::HostGone)),
        ]
    );
    assert_eq!(
        LobbyLeftReason::HostGone.early_end(),
        "the host left before the session opened"
    );
    assert_eq!(
        LobbyLeftReason::Kicked.early_end(),
        "the host removed this player before the session opened"
    );
}

#[test]
fn a_forgotten_lobby_is_left_on_steam() {
    assert_eq!(
        forget_lobby(LOBBY, Some(id(1)), Some(LOBBY)),
        vec![
            SteamEffect::CloseSession(id(1)),
            SteamEffect::LeaveLobby(LOBBY),
            SteamEffect::SetCurrentLobby(None),
            SteamEffect::ForgetHostUuid,
        ]
    );
    assert_eq!(
        forget_lobby(LOBBY, None, Some(LobbyId(5))),
        vec![SteamEffect::LeaveLobby(LOBBY), SteamEffect::ForgetHostUuid]
    );
}

#[test]
fn the_named_owner_seats_everybody_else() {
    let session = world(vec![client_lobby(1)], vec![seat(20, 4, true)]);
    let steam = cache(2, &[1, 2, 3, 4], false);
    match follow_lobby_owner(&session, &steam, id(2), &client_lobby(1)) {
        OwnerStep::Host { previous, seats, members } => {
            assert_eq!(previous, id(1));
            assert_eq!(seats, vec![id(3)], "not the one who has a seat, nor this peer");
            assert_eq!(members, vec![2, 3, 4]);
        }
        other => panic!("{other:?}"),
    }
    match follow_lobby_owner(&session, &steam, id(3), &client_lobby(1)) {
        OwnerStep::Follow { previous, owner, members } => {
            assert_eq!((previous, owner), (id(1), id(2)));
            assert_eq!(members, vec![2, 3, 4]);
        }
        other => panic!("{other:?}"),
    }
    assert!(matches!(
        follow_lobby_owner(&session, &cache(1, &[1, 2], false), id(2), &client_lobby(1)),
        OwnerStep::Stay
    ));
    assert!(matches!(
        follow_lobby_owner(&session, &cache(2, &[2], true), id(2), &client_lobby(1)),
        OwnerStep::Leave(_)
    ));
}

#[test]
fn a_new_owner_is_followed_in_one_step() {
    let session = world(vec![client_lobby(1)], vec![]);
    let steam = cache(2, &[1, 2, 3], false);
    let step = |local| {
        take_owner_step(10, local, follow_lobby_owner(&session, &steam, local, &client_lobby(1)))
    };
    let named = SteamEffect::NewHostNamed {
        entity: 10,
        previous: 1,
        new_host: 2,
        members: vec![2, 3],
    };
    assert_eq!(
        step(id(3)),
        vec![
            SteamEffect::CloseSession(id(1)),
            SteamEffect::PinHost { entity: 10, host: id(2) },
            named,
        ]
    );
    let named = SteamEffect::NewHostNamed {
        entity: 10,
        previous: 1,
        new_host: 2,
        members: vec![2, 3],
    };
    assert_eq!(
        step(id(2)),
        vec![
            SteamEffect::CloseSession(id(1)),
            SteamEffect::UnpinHost(10),
            SteamEffect::SpawnSeat { lobby: 10, steam_id: id(3), player_uuid: 3 },
            named,
        ]
    );
    let closed = follow_lobby_owner(&session, &cache(2, &[2], true), id(2), &client_lobby(1));
    assert_eq!(
        take_owner_step(10, id(2), closed),
        vec![
            SteamEffect::CloseSession(id(1)),
            SteamEffect::LeaveLobby(LOBBY),
            SteamEffect::EndLobby {
                entity: 10,
                promoted: true,
                reason: LobbyLeftReason::HostGone,
            },
        ]
    );
    assert!(take_owner_step(10, id(2), OwnerStep::Stay).is_empty());
}

#[test]
fn a_closing_host_marks_its_lobby() {
    let hosting = world(vec![client_lobby(1), hosted_lobby()], vec![]);
    assert_eq!(close_lobby(&hosting, 2), vec![SteamEffect::MarkClosed(LOBBY)]);
    assert!(close_lobby(&hosting, 0).is_empty());
    let pending = SteamLobby { pending: true, ..hosted_lobby() };
    assert!(close_lobby(&world(vec![client_lobby(1), pending], vec![]), 1).is_empty());
    assert_eq!(CLOSED_LOBBY_KEY, "bevy_ensemble_closed");
}

#[test]
fn every_lobby_that_survives_its_host_is_looked_at() {
    let settled = SteamLobby { migratable: false, ..client_lobby(1) };
    let unpinned = SteamLobby { host: None, ..client_lobby(1) };
    let waiting = SteamLobby { entity: 11, pending: true, ..client_lobby(1) };
    let session = world(
        vec![settled, client_lobby(1), unpinned, hosted_lobby(), waiting],
        vec![seat(20, 2, false)],
    );
    let steam = cache(2, &[1, 2], false);
    let steps = follow_lobby_owners(&session, &steam, id(3));
    let entities: Vec<u64> = steps.iter().map(|(entity, _)| *entity).collect();
    assert_eq!(entities, vec![10, 11]);
    assert!(steps.iter().all(|(_, step)| matches!(step, OwnerStep::Follow { .. })));

    let stuck = SteamLobby { entity: 12, migratable: false, ..hosted_lobby() };
    let hosting = world(vec![stuck, hosted_lobby(), client_lobby(1)], vec![seat(20, 2, false)]);
    assert_eq!(
        end_replaced_hosts(&hosting, &steam, id(1)),
        end_replaced_host(&hosting, &steam, id(1), &hosted_lobby())
    );
    assert!(end_replaced_hosts(&hosting, &steam, id(2)).is_empty());
    assert_eq!(
        steam_host_migration(),
        HostMigratable { successor_within: 60_000_000_000, reach_within: 20_000_000_000 }
    );
}

#[test]
fn a_failed_join_says_why() {
    assert_eq!(JoinFailure::NotCreated(25).reason(), "Steam could not create the lobby (25)");
    assert_eq!(
        JoinFailure::Refused("Full".to_string()).reason(),
        "Steam refused the join: Full"
    );
    assert_eq!(
        JoinFailure::EndedEarly(LobbyLeftReason::HostGone).reason(),
        "the host left before the session opened"
    );
}

#[test]
fn a_replaced_host_ends_its_session() {
    let session = world(vec![hosted_lobby()], vec![seat(20, 2, false)]);
    let effects = end_replaced_host(&session, &cache(2, &[2], false), id(1), &hosted_lobby());
    assert_eq!(
        effects,
        vec![
            SteamEffect::CloseSession(id(2)),
            SteamEffect::DespawnLobby(10),
            SteamEffect::LobbyLeft(LobbyLeftReason::SignallingLost),
        ]
    );
    let kept = end_replaced_host(&session, &cache(1, &[1, 2], false), id(1), &hosted_lobby());
    assert!(kept.is_empty());
}

#[test]
fn friends_lobbies_are_listed_once_and_counted() {
    let friend = |name: &str, app_id: u32, lobby: u64| FriendGame {
        name: name.to_string(),
        app_id,
        lobby: LobbyId(lobby),
    };
    let friends = || {
        vec![
            friend("ann", 480, 5),
            friend("bob", 480, 5),
            friend("cid", 480, 0),
            friend("dan", 481, 6),
            friend("eve", 480, 7),
        ]
    };
    assert_eq!(populate_friend_lobbies(true, false, friends(), 480), Discovery::Idle);
    assert_eq!(populate_friend_lobbies(false, true, friends(), 480), Discovery::Idle);
    assert_eq!(populate_friend_lobbies(false, false, friends(), 482), Discovery::Publish);
    assert!(refresh_lobbies(1) && !refresh_lobbies(0));
    let Discovery::Ask(pending) = populate_friend_lobbies(false, false, friends(), 480) else {
        panic!("two lobbies to ask for");
    };
    let ids: Vec<u64> = pending.iter().map(|summary| summary.lobby_id.raw()).collect();
    assert_eq!(ids, vec![5, 7]);
    assert_eq!(pending[0].host_name, "ann");

    let (pending, all) = hydrate_friend_lobbies(pending, LobbyId(5), true, 3);
    assert!(!all, "one is still unknown");
    let (pending, all) = hydrate_friend_lobbies(pending, LobbyId(7), false, 0);
    assert!(all);
    let public = publish_public_lobbies(&pending);
    assert_eq!(public.len(), 1);
    assert_eq!(public[0].lobby_id, 5);
    assert_eq!(public[0].code, "");
    assert_eq!(public[0].host_name, "ann");
    assert_eq!((public[0].player_count, public[0].max_players), (3, 8));
}

#[test]
fn packets_pass_the_gate_of_the_lobby() {
    let steam = cache(1, &[1, 2], false);
    let hosting = world(vec![hosted_lobby()], vec![]);
    let gate = packet_gate(&hosting, &steam);
    assert_eq!(
        judge_packet(&hosting, &gate, id(2)),
        PacketVerdict::Read(vec![SteamEffect::SpawnSeat {
            lobby: 10,
            steam_id: id(2),
            player_uuid: 2
        }])
    );
    assert_eq!(
        judge_packet(&hosting, &gate, id(3)),
        PacketVerdict::Refuse(Refusal::NotAMember)
    );
    let joined = world(vec![client_lobby(1)], vec![]);
    let gate = packet_gate(&joined, &steam);
    assert_eq!(judge_packet(&joined, &gate, id(1)), PacketVerdict::Read(vec![]));
    assert_eq!(
        judge_packet(&joined, &gate, id(2)),
        PacketVerdict::Refuse(Refusal::NotTheHost)
    );
    let nowhere = world(vec![], vec![]);
    let gate = packet_gate(&nowhere, &steam);
    assert_eq!(
        judge_packet(&nowhere, &gate, id(1)),
        PacketVerdict::Refuse(Refusal::NoLobby)
    );
    assert_eq!(Refusal::NotAMember.why(), "not a member of the hosted lobby");
    assert_eq!(Refusal::NotTheHost.why(), "not the host this client joined");
    assert_eq!(Refusal::NoLobby.why(), "this peer is not in a lobby");
}

#[test]
fn refusals_are_loud_three_times() {
    let mut refused = 0;
    let loud: Vec<bool> = (0..5).map(|_| refuse_packet(&mut refused)).collect();
    assert_eq!(loud, vec![true, true, true, false, false]);
    assert_eq!(refused, 5);
}

#[test]
fn packets_go_to_the_host_or_to_the_other_members() {
    let steam = cache(1, &[1, 2, 3], false);
    let hosting = world(vec![hosted_lobby()], vec![seat(20, 3, false)]);
    assert_eq!(
        send_serialized_lobby_packet(&hosting, &steam, id(1), 10),
        Some(vec![id(2), id(3)])
    );
    assert_eq!(
        send_serialized_lobby_packet(&hosting, &steam, id(1), 20),
        Some(vec![id(3)])
    );
    assert_eq!(send_serialized_lobby_packet(&hosting, &steam, id(1), 99), None);
    let joined = world(vec![client_lobby(2)], vec![]);
    assert_eq!(
        send_serialized_lobby_packet(&joined, &steam, id(3), 10),
        Some(vec![id(2)]),
        "the pinned host, whoever owns the lobby"
    );
    let unpinned = SteamLobby { host: None, ..client_lobby(2) };
    assert_eq!(
        send_serialized_lobby_packet(&world(vec![unpinned], vec![]), &steam, id(3), 10),
        Some(vec![id(1)])
    );
}

#[test]
fn a_mode_is_sent_with_its_flags() {
    assert_eq!(send_flags(SendMode::Reliable), SendFlags::Reliable);
    assert_eq!(send_flags(SendMode::ReliableNoDelay), SendFlags::ReliableNoNagle);
    assert_eq!(send_flags(SendMode::Unreliable), SendFlags::UnreliableNoNagle);
}

#[test]
fn steam_handshakes_repeat_while_they_are_needed() {
    let mut timer = HandshakeTimer::new();
    assert!(timer.tick(0), "at once");
    assert!(!timer.tick(499_999_999));
    assert!(timer.tick(1));
    let steam = cache(1, &[1, 2, 3], false);
    let pending = SteamLobby { pending: true, ..client_lobby(1) };
    assert_eq!(send_client_handshakes(&world(vec![pending], vec![]), &steam), vec![id(1)]);
    assert!(send_client_handshakes(&world(vec![client_lobby(1)], vec![]), &steam).is_empty());
    let reaching = SteamLobby { reaching_successor: true, ..client_lobby(2) };
    assert_eq!(send_client_handshakes(&world(vec![reaching], vec![]), &steam), vec![id(2)]);
    assert_eq!(
        send_host_handshakes(&world(vec![hosted_lobby()], vec![]), &steam, id(1)),
        vec![id(2), id(3)]
    );
}

#[test]
fn steam_handshakes_promote_whoever_they_are_from() {
    let steam = cache(1, &[1, 2], false);
    let pending = SteamLobby { pending: true, ..client_lobby(1) };
    let joining = world(vec![pending], vec![]);
    let from = |sender, from_host| ReceivedHandshake { sender, from_host };
    assert_eq!(
        promote_client_lobby_on_host_handshake(&joining, &steam, from(Some(1), true)),
        Some(10)
    );
    assert_eq!(
        promote_client_lobby_on_host_handshake(&joining, &steam, from(Some(3), true)),
        None
    );
    assert_eq!(
        promote_client_lobby_on_host_handshake(&joining, &steam, from(None, true)),
        None
    );
    let hosting = world(vec![hosted_lobby()], vec![seat(20, 2, true), seat(21, 3, true)]);
    assert_eq!(
        promote_host_client_on_client_handshake(&hosting, from(Some(3), false)),
        Some(21)
    );
    assert_eq!(promote_host_client_on_client_handshake(&hosting, from(Some(3), true)), None);
    assert_eq!(promote_host_client_on_client_handshake(&hosting, from(Some(9), false)), None);
}

#[test]
fn leaving_closes_sessions_before_the_lobby() {
    let hosting = world(
        vec![hosted_lobby()],
        vec![seat(20, 2, false), seat(21, 3, true)],
    );
    let steam = cache(1, &[1, 2, 3], false);
    assert_eq!(
        leave_lobby(&hosting, &steam, 1),
        vec![
            SteamEffect::CloseSession(id(2)),
            SteamEffect::DespawnSeat(20),
            SteamEffect::LeaveLobby(LOBBY),
            SteamEffect::DespawnLobby(10),
        ]
    );
    assert!(leave_lobby(&hosting, &steam, 0).is_empty());
    let joined = world(vec![client_lobby(1)], vec![]);
    assert_eq!(
        leave_lobby(&joined, &steam, 2),
        vec![
            SteamEffect::CloseSession(id(1)),
            SteamEffect::LeaveLobby(LOBBY),
            SteamEffect::DespawnLobby(10),
        ]
    );
}

#[test]
fn the_last_join_request_counts() {
    let free = world(vec![], vec![]);
    assert_eq!(
        join_requested_lobbies(&free, &vec![LobbyId(1), LobbyId(2)]),
        vec![SteamEffect::SpawnPendingLobby, SteamEffect::JoinLobby(LobbyId(2))]
    );
    assert!(join_requested_lobbies(&free, &vec![]).is_empty());
    let joined = world(vec![client_lobby(1)], vec![]);
    assert!(join_requested_lobbies(&joined, &vec![LobbyId(1)]).is_empty());
}
