//! Sessions over WebRTC: whom a peer trusts, what the server's word does, and what is sent when.

use ensemble::protocol::{ClientMessage, LobbyInfo, ServerMessage};
use ensemble::sockets::route::PeerRoute;
use ensemble::sockets::signal::PeerSignal;
use ensemble::sockets::socket::{
    EnsembleSocket, PeerChange, PeerState, RouteChange, SignalAction, ICE_RESTART_TIMEOUT,
};
use ensemble::webrtc::connection::{
    dispatch_server_message, ConnectionInput, ConnectionPhase, ConnectionStep, Dispatch,
    LobbyEvent, ServerConnection,
};
use ensemble::webrtc::deferred::{
    pump_socket_signals, signal_kind, DeferredSignals, DEFERRED_OFFER_TIMEOUT, MAX_DEFERRED_OFFERS,
};
use ensemble::webrtc::events::{Effect, LobbyFrame};
use ensemble::webrtc::handshake::{
    handshake_is_from_host, promote_client_lobby_on_host_handshake,
    promote_host_client_on_client_handshake, send_client_handshakes, send_host_handshakes,
    HandshakeTimer, OutgoingHandshake, ReceivedHandshake,
};
use ensemble::webrtc::outcome::{JoinFailure, LobbyLeftReason};
use ensemble::webrtc::peers::{
    liveness_entity, poll_peer_routes, poll_socket_peers, reconcile_routes, RouteUpdate,
};
use ensemble::webrtc::ping::{
    receive_pong, receive_pongs, respond_to_pings, send_pings, smooth, OutgoingPing, PeerRtt,
    PingTimer, PongReply, ReceivedEcho,
};
use ensemble::webrtc::requests::{
    close_lobby, create_lobby, detect_lobby_leave, disconnect_removed_lobby_client,
    join_requested_lobbies, join_requested_lobbies_by_code, leave_lobby, pending_join,
    publish_display_name, reconnect_signalling, refresh_lobby_list, send_keep_alives,
    send_serialized_lobby_packet, time_out_pending_lobbies, JoinStep, LeaveStep, PendingStep,
    Schedule,
};
use ensemble::webrtc::session::{apply_lobby_events, end_client_lobbies};
use ensemble::webrtc::signaller::{
    hear, request_message, signaller_event, EnsembleSignallerBuilder, SignallerError, SignallerEvent,
    SignallerRequest,
};
use ensemble::webrtc::trust::{
    accept_offer_from, accept_packet_from, client_session_ends_with, seat_removal_is_a_kick,
    standing_of, PacketVerdict, PeerRole, UntrustedPacketDrops,
};
use ensemble::webrtc::world::{LobbyEntity, ParticipantEntity, SeatEntity, SessionWorld};

const HOST: u128 = 0xA;
const OTHER: u128 = 0xB;

fn lobby(entity: u64) -> LobbyEntity {
    LobbyEntity {
        entity,
        pending: false,
        hosted: false,
        requested: false,
        lobby_id: None,
        host_uuid: None,
        migratable: false,
        route: None,
        pending_since: None,
    }
}

fn hosted(entity: u64) -> LobbyEntity {
    LobbyEntity { hosted: true, ..lobby(entity) }
}

fn joined(entity: u64, host: u128) -> LobbyEntity {
    LobbyEntity { host_uuid: Some(host), ..lobby(entity) }
}

fn pending(lobby: LobbyEntity) -> LobbyEntity {
    LobbyEntity { pending: true, ..lobby }
}

fn seat(entity: u64, lobby: u64, uuid: u128) -> SeatEntity {
    SeatEntity {
        entity,
        lobby: Some(lobby),
        webrtc_uuid: uuid,
        player_uuid: uuid,
        pending: false,
        route: None,
    }
}

fn world(lobbies: Vec<LobbyEntity>, seats: Vec<SeatEntity>) -> SessionWorld {
    SessionWorld { lobbies, seats, participants: vec![] }
}

fn offer() -> PeerSignal {
    PeerSignal::Offer(String::new())
}

fn candidate() -> PeerSignal {
    PeerSignal::IceCandidate(String::new())
}

fn kinds(signals: &[(u128, PeerSignal)]) -> Vec<(u128, &'static str)> {
    signals
        .iter()
        .map(|(sender, signal)| (*sender, signal_kind(signal)))
        .collect()
}

#[test]
fn a_client_accepts_an_offer_only_from_its_host() {
    assert!(accept_offer_from(PeerRole::Client, Some(HOST), HOST));
    assert!(!accept_offer_from(PeerRole::Client, Some(HOST), OTHER));
    // Not yet told who the host is: nobody is trusted, rather than the first to ask.
    assert!(!accept_offer_from(PeerRole::Client, None, HOST));
    // A host is the offerer; an offer to it is never legitimate. Nor with no lobby.
    assert!(!accept_offer_from(PeerRole::Host, None, OTHER));
    assert!(!accept_offer_from(PeerRole::Unattached, None, HOST));
}

#[test]
fn a_client_reads_only_its_host_and_a_host_only_its_known_clients() {
    assert!(accept_packet_from(PeerRole::Client, Some(HOST), &[], HOST));
    assert!(!accept_packet_from(PeerRole::Client, Some(HOST), &[], OTHER));
    assert!(!accept_packet_from(PeerRole::Client, None, &[], HOST));
    assert!(accept_packet_from(PeerRole::Host, None, &[OTHER], OTHER));
    assert!(!accept_packet_from(PeerRole::Host, None, &[OTHER], HOST));
    assert!(!accept_packet_from(PeerRole::Unattached, None, &[OTHER], OTHER));
}

#[test]
fn only_the_host_leaving_ends_a_client_session() {
    assert!(client_session_ends_with(Some(HOST), HOST));
    assert!(!client_session_ends_with(Some(HOST), OTHER));
    assert!(!client_session_ends_with(None, OTHER));
}

/// A seat removed on its own is a kick; the seats that go with the host's lobby are not.
#[test]
fn a_seat_removed_with_its_lobby_is_not_told_it_was_kicked() {
    let mut verdicts = Vec::new();
    let mut session = world(vec![hosted(1)], vec![seat(2, 1, 7), seat(3, 1, 8), seat(4, 1, 9)]);

    let kicked = session.seats.remove(0);
    verdicts.push(seat_removal_is_a_kick(kicked.lobby, &session));
    assert_eq!(verdicts, [true], "a kick");

    session.lobbies.clear();
    while let Some(removed) = session.seats.pop() {
        verdicts.push(seat_removal_is_a_kick(removed.lobby, &session));
    }
    assert_eq!(
        verdicts,
        [true, false, false],
        "the host leaving is not two more kicks"
    );
}

/// The offer that arrived a frame before its sender was named: held, with the candidates behind
/// it, and applied in order once the sender is the host.
#[test]
fn a_deferred_offer_is_answered_once_its_sender_is_the_host() {
    let now = 1_000;
    let mut deferred = DeferredSignals::new();

    assert!(deferred.take_in(HOST, offer(), false, now).is_none());
    assert!(
        deferred.take_in(HOST, candidate(), false, now).is_none(),
        "a candidate means nothing before its offer, so it waits behind it"
    );
    assert!(
        deferred.release(|_| false, now).is_empty(),
        "not answerable yet"
    );

    let released = deferred.release(|sender| sender == HOST, now);
    assert_eq!(
        kinds(&released),
        [(HOST, "offer"), (HOST, "candidate")],
        "released in arrival order"
    );
    assert!(deferred.release(|_| true, now).is_empty(), "and only once");
}

#[test]
fn a_deferred_offer_expires() {
    let now = 1_000;
    let mut deferred = DeferredSignals::new();
    deferred.take_in(OTHER, offer(), false, now);

    let later = now + DEFERRED_OFFER_TIMEOUT + 1_000_000;
    assert!(deferred.release(|_| false, later).is_empty());
    assert!(
        deferred.release(|_| true, later).is_empty(),
        "an offer dropped on expiry is not answered later"
    );
}

/// Nothing is delayed that did not need to be: an answerable offer, and every signal that is not
/// an offer from a peer with nothing held.
#[test]
fn a_signal_with_no_reason_to_wait_is_applied_at_once() {
    let now = 1_000;
    let mut deferred = DeferredSignals::new();
    assert!(deferred.take_in(HOST, offer(), true, now).is_some());
    assert!(deferred.take_in(OTHER, candidate(), false, now).is_some());
}

#[test]
fn no_more_offers_are_held_than_the_cap() {
    let now = 1_000;
    let mut deferred = DeferredSignals::new();
    for sender in 0..(MAX_DEFERRED_OFFERS as u128 + 3) {
        deferred.take_in(sender, offer(), false, now);
    }
    assert_eq!(deferred.release(|_| true, now).len(), MAX_DEFERRED_OFFERS);
}

/// The promotion path with no socket under it: the handshake as it is after a packet came off a
/// data channel.
#[test]
fn a_handshake_claiming_host_from_another_peer_is_ignored() {
    let session = world(vec![pending(joined(1, HOST))], vec![]);
    let claim = |sender| vec![ReceivedHandshake { sender: Some(sender), from_host: true }];
    assert_eq!(
        promote_client_lobby_on_host_handshake(&session, &claim(OTHER)),
        None,
        "a `from_host` handshake from a peer that is not the host must not promote the lobby"
    );
    assert_eq!(
        promote_client_lobby_on_host_handshake(&session, &claim(HOST)),
        Some(1),
        "the host's own handshake promotes it"
    );
}

#[test]
fn the_host_check_is_on_the_sender_not_the_claim() {
    assert!(handshake_is_from_host(HOST, Some(HOST)));
    assert!(!handshake_is_from_host(HOST, Some(OTHER)));
    assert!(!handshake_is_from_host(HOST, None));
}

#[test]
fn a_pending_lobby_makes_a_host_for_signals_but_not_for_packets() {
    let about_to_host = world(vec![pending(hosted(1))], vec![]);
    assert_eq!(standing_of(&about_to_host, true), (PeerRole::Host, None));
    assert_eq!(standing_of(&about_to_host, false), (PeerRole::Unattached, None));
    let both = world(vec![hosted(1), joined(2, HOST)], vec![]);
    assert_eq!(standing_of(&both, true), (PeerRole::Client, Some(HOST)));
}

#[test]
fn untrusted_packets_are_dropped_and_counted() {
    let mut drops = UntrustedPacketDrops::new();
    let session = world(vec![joined(1, HOST)], vec![]);
    let verdicts =
        drops.judge_packets(&session, &vec![HOST, OTHER, OTHER, OTHER, OTHER, HOST]);
    assert_eq!(
        verdicts,
        vec![
            PacketVerdict::Read,
            PacketVerdict::Drop { count: 1, loud: true },
            PacketVerdict::Drop { count: 2, loud: true },
            PacketVerdict::Drop { count: 3, loud: true },
            PacketVerdict::Drop { count: 4, loud: false },
            PacketVerdict::Read,
        ]
    );
    let hosting = world(vec![hosted(1)], vec![seat(2, 1, OTHER)]);
    assert_eq!(
        drops.judge_packets(&hosting, &vec![OTHER, HOST]),
        vec![PacketVerdict::Read, PacketVerdict::Drop { count: 1, loud: true }]
    );
}

#[test]
fn a_pump_answers_the_host_and_holds_everybody_else() {
    let mut deferred = DeferredSignals::new();
    let mut socket = EnsembleSocket::new();
    let actions = pump_socket_signals(
        &mut deferred,
        &mut socket,
        PeerRole::Client,
        None,
        vec![(HOST, offer()), (HOST, candidate())],
        0,
    );
    assert!(actions.is_empty());
    assert!(!socket.has_peer(HOST));
    let actions = pump_socket_signals(
        &mut deferred,
        &mut socket,
        PeerRole::Client,
        Some(HOST),
        vec![(OTHER, offer()), (OTHER, PeerSignal::Answer("sdp".to_string()))],
        1,
    );
    assert_eq!(
        actions,
        vec![
            (HOST, SignalAction::Open(String::new())),
            (HOST, SignalAction::Apply(candidate())),
        ]
    );
    assert!(socket.has_peer(HOST));
    assert!(!socket.has_peer(OTHER), "held behind its own offer");
    assert_eq!(signal_kind(&PeerSignal::Answer(String::new())), "answer");
}

fn frame(session: &SessionWorld, me: Option<u128>) -> LobbyFrame {
    LobbyFrame::new(me, false, session, 100)
}

fn apply(session: &SessionWorld, me: Option<u128>, event: LobbyEvent) -> Vec<Effect> {
    frame(session, me).apply(session, None, event)
}

#[test]
fn a_welcome_names_this_peer() {
    let session = world(vec![], vec![]);
    let mut frame = frame(&session, None);
    let effects = frame.apply(&session, None, LobbyEvent::Welcome { player_uuid: 5 });
    assert_eq!(effects, vec![Effect::SetLocalId(5)]);
    assert_eq!(frame.local_player_uuid, Some(5));
}

#[test]
fn a_lobby_is_created_for_a_peer_that_has_a_name() {
    let session = world(
        vec![LobbyEntity { requested: true, ..pending(hosted(1)) }],
        vec![],
    );
    let created = || LobbyEvent::LobbyCreated { lobby_id: 9, code: "ABCD".to_string() };
    assert!(apply(&session, None, created()).is_empty());
    assert_eq!(
        apply(&session, Some(5), created()),
        vec![
            Effect::SetLocalId(5),
            Effect::SetHostUuid(5),
            Effect::PromoteHosted { lobby: 1, lobby_id: 9, code: "ABCD".to_string() },
        ]
    );
}

#[test]
fn a_joined_lobby_learns_its_host() {
    let session = world(vec![pending(lobby(1))], vec![]);
    let effects = apply(
        &session,
        Some(5),
        LobbyEvent::LobbyJoined { lobby_id: 9, host_uuid: HOST, existing_members: vec![HOST] },
    );
    assert_eq!(
        effects,
        vec![
            Effect::SetLocalId(5),
            Effect::SetHostUuid(HOST),
            Effect::AttachJoined { lobby: 1, lobby_id: 9, host_uuid: HOST },
        ]
    );
}

#[test]
fn a_lobby_error_ends_what_was_pending() {
    let session = world(
        vec![
            LobbyEntity { requested: true, ..pending(hosted(1)) },
            pending(lobby(2)),
            joined(3, HOST),
        ],
        vec![],
    );
    assert_eq!(
        apply(&session, Some(5), LobbyEvent::LobbyError { reason: "full".to_string() }),
        vec![
            Effect::ForgetLocalId,
            Effect::ForgetHostUuid,
            Effect::DespawnLobby(1),
            Effect::DespawnLobby(2),
        ]
    );
}

#[test]
fn a_player_who_joins_twice_is_seated_once() {
    let session = world(vec![hosted(1)], vec![seat(2, 1, 7)]);
    let mut frame = frame(&session, Some(5));
    let effects = apply_lobby_events(
        &mut frame,
        &session,
        None,
        vec![
            LobbyEvent::PlayerJoined { player_uuid: 7 },
            LobbyEvent::PlayerJoined { player_uuid: 8 },
            LobbyEvent::PlayerJoined { player_uuid: 8 },
            LobbyEvent::PlayerLeft { player_uuid: 8 },
            LobbyEvent::PlayerLeft { player_uuid: 7 },
        ],
    );
    assert_eq!(
        effects,
        vec![
            Effect::ConnectPeer(8),
            Effect::SpawnSeat { seat: 100, lobby: 1, player_uuid: 8 },
            Effect::DespawnSeat(100),
            Effect::DespawnSeat(2),
        ]
    );
    assert!(frame.seated.is_empty());
}

#[test]
fn a_join_finds_no_lobby_when_two_are_hosted() {
    let session = world(vec![hosted(1), hosted(2)], vec![]);
    assert!(apply(&session, Some(5), LobbyEvent::PlayerJoined { player_uuid: 7 }).is_empty());
}

#[test]
fn a_departure_no_host_can_tell_of_goes_to_the_lobby() {
    let session = world(vec![joined(1, HOST)], vec![]);
    assert_eq!(
        apply(&session, Some(5), LobbyEvent::PlayerLeft { player_uuid: 7 }),
        vec![Effect::ParticipantDeparted { lobby: 1, player_uuid: 7 }]
    );
    let nowhere = world(vec![], vec![]);
    assert!(apply(&nowhere, Some(5), LobbyEvent::PlayerLeft { player_uuid: 7 }).is_empty());
}

#[test]
fn a_migratable_lobby_waits_for_the_server_and_then_some() {
    let session = world(vec![joined(1, HOST)], vec![]);
    let event = || LobbyEvent::LobbyMigratable { idle_timeout_secs: 60 };
    assert_eq!(
        apply(&session, Some(5), event()),
        vec![Effect::MakeMigratable {
            lobby: 1,
            successor_within: 90_000_000_000,
            reach_within: 20_000_000_000,
        }]
    );
    let effects = frame(&session, Some(5)).apply(&session, Some(30_000_000_000), event());
    assert_eq!(
        effects,
        vec![Effect::MakeMigratable {
            lobby: 1,
            successor_within: 90_000_000_000,
            reach_within: 35_000_000_000,
        }]
    );
}

fn host_changed(new_host: u128) -> LobbyEvent {
    LobbyEvent::HostChanged {
        lobby_id: 9,
        previous_host: HOST,
        new_host,
        code: "WXYZ".to_string(),
        members: vec![5, 7, 8],
    }
}

#[test]
fn the_peer_named_host_connects_to_every_member() {
    let session = world(vec![joined(1, HOST)], vec![seat(2, 1, 7)]);
    let mut frame = frame(&session, Some(5));
    let effects = apply_lobby_events(
        &mut frame,
        &session,
        None,
        vec![host_changed(5), LobbyEvent::PlayerJoined { player_uuid: 9 }],
    );
    assert_eq!(
        effects,
        vec![
            Effect::DisconnectPeer(HOST),
            Effect::BecomeHost { lobby: 1, code: "WXYZ".to_string() },
            Effect::DisconnectPeer(8),
            Effect::ConnectPeer(8),
            Effect::SpawnSeat { seat: 100, lobby: 1, player_uuid: 8 },
            Effect::NewHostNamed {
                lobby: 1,
                previous: HOST,
                new_host: 5,
                members: vec![5, 7, 8],
            },
            Effect::ConnectPeer(9),
            Effect::SpawnSeat { seat: 101, lobby: 1, player_uuid: 9 },
        ]
    );
    assert_eq!(frame.hosted, Some(1));
}

#[test]
fn everybody_else_points_at_the_new_host() {
    let session = world(vec![joined(1, HOST)], vec![]);
    let mut frame = frame(&session, Some(7));
    let effects = frame.apply(&session, None, host_changed(5));
    assert_eq!(
        effects,
        vec![
            Effect::DisconnectPeer(HOST),
            Effect::DisconnectPeer(5),
            Effect::FollowHost { lobby: 1, host_uuid: 5, code: "WXYZ".to_string() },
            Effect::NewHostNamed {
                lobby: 1,
                previous: HOST,
                new_host: 5,
                members: vec![5, 7, 8],
            },
        ]
    );
    assert_eq!(frame.hosted, None);
}

#[test]
fn a_removed_client_ends_once() {
    let session = world(vec![joined(1, HOST), pending(lobby(2))], vec![]);
    let removed = || LobbyEvent::Disconnected { reason: "closed".to_string() };
    assert_eq!(
        apply(&session, Some(5), removed()),
        vec![
            Effect::EndClientLobby(2),
            Effect::EndClientLobby(1),
            Effect::ConcludeClientLobbies(LobbyLeftReason::HostGone),
        ]
    );
    assert_eq!(
        end_client_lobbies(&session, &vec![2, 1], LobbyLeftReason::HostGone),
        vec![
            Effect::DespawnLobby(2),
            Effect::DespawnLobby(1),
            Effect::ForgetLocalId,
            Effect::ForgetHostUuid,
            Effect::LobbyLeft(LobbyLeftReason::HostGone),
        ]
    );
    let gone = world(vec![], vec![]);
    assert!(end_client_lobbies(&gone, &vec![2, 1], LobbyLeftReason::HostGone).is_empty());
    assert_eq!(
        apply(&gone, Some(5), removed()),
        vec![Effect::ForgetLocalId, Effect::ForgetHostUuid]
    );
}

#[test]
fn losing_the_server_ends_every_lobby() {
    let session = SessionWorld {
        lobbies: vec![hosted(1), pending(lobby(2))],
        seats: vec![seat(3, 1, 7)],
        participants: vec![
            ParticipantEntity { entity: 4, lobby: 1 },
            ParticipantEntity { entity: 5, lobby: 9 },
        ],
    };
    let mut frame = frame(&session, Some(5));
    let effects = frame.apply(&session, None, LobbyEvent::SignallingClosed);
    assert!(frame.signalling_lost);
    assert_eq!(
        effects,
        vec![
            Effect::DisconnectAll,
            Effect::DespawnParticipant(4),
            Effect::DespawnSeat(3),
            Effect::DespawnLobby(1),
            Effect::DespawnSeat(3),
            Effect::DespawnLobby(2),
            Effect::ForgetLocalId,
            Effect::ForgetHostUuid,
            Effect::JoinFailed(JoinFailure::SignallingLost),
            Effect::LobbyLeft(LobbyLeftReason::SignallingLost),
        ]
    );
    let idle = world(vec![], vec![]);
    assert_eq!(
        apply(&idle, None, LobbyEvent::SignallingClosed),
        vec![Effect::DisconnectAll, Effect::ForgetLocalId, Effect::ForgetHostUuid]
    );
}

fn info() -> LobbyInfo {
    LobbyInfo {
        lobby_id: 1,
        code: "ABCD".to_string(),
        host_name: "ann".to_string(),
        player_count: 1,
        max_players: 4,
    }
}

#[test]
fn a_lobby_list_is_shown_as_it_came() {
    let session = world(vec![], vec![]);
    assert_eq!(
        apply(&session, None, LobbyEvent::LobbyList { lobbies: vec![info()] }),
        vec![Effect::ShowPublicLobbies(vec![info()])]
    );
}

#[test]
fn every_failure_says_what_it_was() {
    let texts = [
        (
            JoinFailure::SignallingLost,
            "Lost the signalling server before the lobby was ready.",
        ),
        (
            JoinFailure::PlayerUnreachable(340_282),
            "A player could not connect to this lobby (340282)",
        ),
        (
            JoinFailure::HostUnreachable,
            "Could not connect to the host. Their network or yours is refusing the connection.",
        ),
        (JoinFailure::HostLost, "Lost the connection to the host."),
        (
            JoinFailure::NotCreated,
            "Could not open a lobby. The signalling server did not answer.",
        ),
        (
            JoinFailure::NotJoined,
            "Could not join. The lobby never finished connecting.",
        ),
    ];
    for (failure, text) in texts {
        assert_eq!(failure.reason(), text);
    }
    assert_eq!(
        JoinFailure::PlayerUnreachable(u128::MAX).reason(),
        format!("A player could not connect to this lobby ({})", u128::MAX)
    );
    assert_eq!(
        JoinFailure::PlayerUnreachable(0).reason(),
        "A player could not connect to this lobby (0)"
    );
}

fn change(peer: u128, state: PeerState) -> Vec<PeerChange> {
    vec![PeerChange { peer, state }]
}

#[test]
fn a_lost_player_costs_a_host_one_seat() {
    let session = world(vec![hosted(1)], vec![seat(2, 1, 7), seat(3, 1, 8)]);
    assert_eq!(
        poll_socket_peers(&session, &change(8, PeerState::Disconnected)),
        vec![Effect::DespawnSeat(3)]
    );
    assert_eq!(
        poll_socket_peers(&session, &change(9, PeerState::Failed)),
        vec![Effect::JoinFailed(JoinFailure::PlayerUnreachable(9))]
    );
}

#[test]
fn a_lost_host_ends_a_client_session_or_is_waited_for() {
    let session = world(vec![joined(1, HOST)], vec![]);
    assert_eq!(
        poll_socket_peers(&session, &change(HOST, PeerState::Failed)),
        vec![
            Effect::DespawnLobby(1),
            Effect::ForgetLocalId,
            Effect::ForgetHostUuid,
            Effect::LobbyLeft(LobbyLeftReason::HostGone),
            Effect::JoinFailed(JoinFailure::HostLost),
        ]
    );
    assert!(poll_socket_peers(&session, &change(OTHER, PeerState::Failed)).is_empty());
    let joining = world(vec![pending(joined(1, HOST))], vec![]);
    assert_eq!(
        poll_socket_peers(&joining, &change(HOST, PeerState::Failed)).last(),
        Some(&Effect::JoinFailed(JoinFailure::HostUnreachable))
    );
    let lasting = world(vec![LobbyEntity { migratable: true, ..joined(1, HOST) }], vec![]);
    assert_eq!(
        poll_socket_peers(&lasting, &change(HOST, PeerState::Disconnected)),
        vec![Effect::HostLost(1)]
    );
}

#[test]
fn a_restart_is_given_grace() {
    let session = world(vec![hosted(1)], vec![seat(2, 1, 7)]);
    assert_eq!(liveness_entity(&session, 7), vec![2]);
    assert_eq!(
        poll_socket_peers(
            &session,
            &vec![
                PeerChange { peer: 7, state: PeerState::Connecting },
                PeerChange { peer: 7, state: PeerState::Reconnecting },
                PeerChange { peer: 7, state: PeerState::Connected },
            ]
        ),
        vec![
            Effect::GiveGrace { entity: 2, extra: ICE_RESTART_TIMEOUT },
            Effect::EndGrace(2),
        ]
    );
    let client = world(vec![joined(1, HOST)], vec![]);
    assert_eq!(liveness_entity(&client, HOST), vec![1]);
    assert!(liveness_entity(&client, OTHER).is_empty());
}

#[test]
fn routes_land_where_they_belong() {
    let settled = vec![RouteChange { peer: 7, route: PeerRoute::Relayed }];
    let hosting = world(vec![hosted(1)], vec![seat(2, 1, 7), seat(3, 1, 8)]);
    assert_eq!(
        reconcile_routes(&hosting, &settled),
        vec![RouteUpdate { entity: 2, route: PeerRoute::Relayed }]
    );
    let noted = LobbyEntity { route: Some(PeerRoute::Relayed), ..joined(1, 7) };
    assert!(reconcile_routes(&world(vec![noted], vec![]), &settled).is_empty());
    let client = world(vec![pending(joined(1, 7))], vec![]);
    let mut socket = EnsembleSocket::new();
    assert!(poll_peer_routes(&client, &socket).is_empty());
    socket.connect_peer(7);
    socket.update_peers(&change(7, PeerState::Connected), 0);
    socket.update_routes(&vec![RouteChange { peer: 7, route: PeerRoute::Direct }]);
    assert_eq!(
        poll_peer_routes(&client, &socket),
        vec![RouteUpdate { entity: 1, route: PeerRoute::Direct }]
    );
}

#[test]
fn handshakes_start_at_once_and_repeat() {
    let mut timer = HandshakeTimer::new();
    assert!(!timer.tick(false, 10), "nothing to send, and the timer stands still");
    assert!(timer.tick(true, 0));
    assert!(!timer.tick(true, 499_999_999));
    assert!(timer.tick(true, 1));
}

#[test]
fn a_client_keeps_sending_handshakes_once_promoted() {
    let connected = vec![HOST, OTHER];
    let known = LobbyEntity { lobby_id: Some(5), ..joined(1, HOST) };
    let to = |from_host| -> Vec<OutgoingHandshake> {
        connected.iter().map(|to| OutgoingHandshake { to: *to, from_host }).collect()
    };
    for lobby in [pending(known), known] {
        let mut timer = HandshakeTimer::new();
        let session = world(vec![lobby], vec![]);
        assert_eq!(send_client_handshakes(&mut timer, &session, &connected, 0), to(false));
        assert!(send_client_handshakes(&mut timer, &session, &connected, 499_999_999).is_empty());
        assert_eq!(send_client_handshakes(&mut timer, &session, &connected, 1), to(false));
        let mut timer = HandshakeTimer::new();
        assert!(send_host_handshakes(&mut timer, &session, &connected, 0).is_empty());
    }
    let mut timer = HandshakeTimer::new();
    let unknown = world(vec![pending(lobby(1))], vec![]);
    assert!(send_client_handshakes(&mut timer, &unknown, &connected, 9).is_empty());
    let hosting = world(vec![LobbyEntity { lobby_id: Some(5), ..hosted(1) }], vec![]);
    assert_eq!(send_host_handshakes(&mut timer, &hosting, &connected, 0), to(true));
    assert!(send_client_handshakes(&mut HandshakeTimer::new(), &hosting, &connected, 0).is_empty());
    let opening = world(vec![pending(LobbyEntity { lobby_id: Some(5), ..hosted(1) })], vec![]);
    assert!(send_host_handshakes(&mut HandshakeTimer::new(), &opening, &connected, 0).is_empty());
}

#[test]
fn pings_go_to_every_connected_peer() {
    let mut timer = PingTimer::new();
    let session = world(vec![pending(lobby(1))], vec![]);
    assert_eq!(
        send_pings(&mut timer, &session, &vec![7, 8], 30, 0),
        vec![OutgoingPing { to: 7, sent_at: 30 }, OutgoingPing { to: 8, sent_at: 30 }]
    );
    assert!(send_pings(&mut timer, &session, &vec![7], 40, 10).is_empty(), "not yet");
    assert!(send_pings(&mut PingTimer::new(), &world(vec![], vec![]), &vec![7], 0, 0).is_empty());
}

#[test]
fn who_comes_and_goes_is_heard_twice() {
    let both = |message, socket, lobby| {
        let hearing = hear(message);
        assert_eq!(hearing.socket, socket);
        assert_eq!(hearing.lobby, lobby);
    };
    both(
        ServerMessage::Welcome { player_uuid: 1 },
        Some(SignallerEvent::IdAssigned(1)),
        Some(LobbyEvent::Welcome { player_uuid: 1 }),
    );
    both(
        ServerMessage::PlayerJoined { player_uuid: 2 },
        Some(SignallerEvent::NewPeer(2)),
        Some(LobbyEvent::PlayerJoined { player_uuid: 2 }),
    );
    both(
        ServerMessage::PlayerLeft { player_uuid: 3 },
        Some(SignallerEvent::PeerLeft(3)),
        Some(LobbyEvent::PlayerLeft { player_uuid: 3 }),
    );
    both(
        ServerMessage::Signal { sender_uuid: 4, data: "x".to_string() },
        Some(SignallerEvent::Signal { sender: 4, data: "x".to_string() }),
        None,
    );
    both(
        ServerMessage::LobbyError { reason: "full".to_string() },
        None,
        Some(LobbyEvent::LobbyError { reason: "full".to_string() }),
    );
}

#[test]
fn a_player_promotes_its_own_seat() {
    let waiting = |entity, uuid| SeatEntity { pending: true, ..seat(entity, 1, uuid) };
    let session = world(vec![hosted(1)], vec![waiting(2, 7), waiting(3, 8)]);
    let handshakes = vec![
        ReceivedHandshake { sender: Some(8), from_host: false },
        ReceivedHandshake { sender: Some(7), from_host: true },
        ReceivedHandshake { sender: None, from_host: false },
        ReceivedHandshake { sender: Some(9), from_host: false },
    ];
    assert_eq!(promote_host_client_on_client_handshake(&session, &handshakes), vec![3]);
    let client = world(vec![joined(1, HOST)], vec![waiting(2, 8)]);
    assert!(promote_host_client_on_client_handshake(&client, &handshakes).is_empty());
}

#[test]
fn requests_become_messages() {
    let free = world(vec![], vec![]);
    let busy = world(vec![pending(lobby(1))], vec![]);
    assert_eq!(
        create_lobby(&vec![true, false, true], 6),
        vec![
            ClientMessage::CreateLobby { max_players: 6 },
            ClientMessage::CreateLobby { max_players: 6 },
        ]
    );
    assert_eq!(
        join_requested_lobbies(&free, &vec![3, 4]),
        vec![
            JoinStep::SpawnPendingLobby,
            JoinStep::Send(ClientMessage::JoinLobby { lobby_id: 4 }),
        ]
    );
    assert!(join_requested_lobbies(&busy, &vec![3]).is_empty());
    assert!(join_requested_lobbies(&free, &vec![]).is_empty());
    let joining = world(vec![pending_join(7)], vec![]);
    assert!(joining.lobbies[0].pending && joining.lobbies[0].entity == 7);
    assert!(join_requested_lobbies(&joining, &vec![3]).is_empty(), "one join at a time");
    assert_eq!(
        join_requested_lobbies_by_code(&free, &vec!["AAAA".to_string(), "BBBB".to_string()]),
        vec![
            JoinStep::SpawnPendingLobby,
            JoinStep::Send(ClientMessage::JoinLobbyByCode { code: "BBBB".to_string() }),
        ]
    );
    assert!(join_requested_lobbies_by_code(&busy, &vec!["AAAA".to_string()]).is_empty());
    assert_eq!(refresh_lobby_list(2), Some(ClientMessage::ListLobbies));
    assert_eq!(refresh_lobby_list(0), None);
    let hosting = world(vec![hosted(1)], vec![]);
    assert_eq!(close_lobby(&hosting, 1), Some(ClientMessage::CloseLobby));
    assert_eq!(close_lobby(&busy, 1), None);
    assert_eq!(close_lobby(&hosting, 0), None);
}

#[test]
fn leaving_lets_go_of_every_lobby() {
    let session = world(vec![hosted(1), pending(lobby(2))], vec![]);
    assert_eq!(leave_lobby(&session, 1), vec![2, 1]);
    assert!(leave_lobby(&session, 0).is_empty());
    assert_eq!(
        detect_lobby_leave(1),
        vec![
            LeaveStep::Send(ClientMessage::LeaveLobby),
            LeaveStep::Apply(Effect::DisconnectAll),
            LeaveStep::Apply(Effect::ForgetLocalId),
            LeaveStep::Apply(Effect::ForgetHostUuid),
            LeaveStep::Rebuild,
        ]
    );
    assert!(detect_lobby_leave(0).is_empty());
}

#[test]
fn a_name_is_published_when_it_changes() {
    let mut announced = "Player".to_string();
    assert_eq!(publish_display_name(&mut announced, &"Player".to_string()), None);
    assert_eq!(
        publish_display_name(&mut announced, &"Ann".to_string()),
        Some(ClientMessage::SetDisplayName { display_name: "Ann".to_string() })
    );
    assert_eq!(announced, "Ann");
    assert_eq!(publish_display_name(&mut announced, &"Ann".to_string()), None);
}

#[test]
fn keep_alives_wait_for_a_session_and_for_their_interval() {
    let mut schedule = Schedule::new();
    assert_eq!(send_keep_alives(&mut schedule, None, false, 5), None);
    assert_eq!(send_keep_alives(&mut schedule, Some(1), true, 5), None);
    assert_eq!(
        send_keep_alives(&mut schedule, Some(1), false, 5),
        Some(ClientMessage::KeepAlive)
    );
    assert_eq!(send_keep_alives(&mut schedule, Some(1), false, 20_000_000_004), None);
    assert_eq!(
        send_keep_alives(&mut schedule, Some(1), false, 20_000_000_005),
        Some(ClientMessage::KeepAlive)
    );
}

#[test]
fn a_lost_connection_is_rebuilt_with_a_pause() {
    let mut schedule = Schedule::new();
    assert!(!reconnect_signalling(&mut schedule, false, 0, 0));
    assert!(!reconnect_signalling(&mut schedule, true, 1, 0), "the lobby rebuilds it");
    assert!(reconnect_signalling(&mut schedule, true, 0, 0));
    assert!(!reconnect_signalling(&mut schedule, true, 0, 4_999_999_999));
    assert!(reconnect_signalling(&mut schedule, true, 0, 5_000_000_000));
}

#[test]
fn a_lobby_that_never_happens_is_given_up() {
    let waiting = |lobby: LobbyEntity, since| LobbyEntity { pending_since: since, ..lobby };
    let session = world(
        vec![
            waiting(pending(hosted(1)), Some(0)),
            waiting(pending(lobby(2)), Some(0)),
            waiting(pending(lobby(3)), Some(6)),
            waiting(pending(lobby(4)), None),
            joined(5, HOST),
        ],
        vec![],
    );
    let steps: Vec<(u64, PendingStep)> = time_out_pending_lobbies(&session, 15, Some(10))
        .into_iter()
        .map(|update| (update.entity, update.step))
        .collect();
    assert_eq!(
        steps,
        vec![
            (1, PendingStep::GiveUp(JoinFailure::NotCreated)),
            (2, PendingStep::GiveUp(JoinFailure::NotJoined)),
            (3, PendingStep::Wait),
            (4, PendingStep::Note),
        ]
    );
    assert!(time_out_pending_lobbies(&session, 15, None).is_empty());
}

#[test]
fn packets_go_where_they_are_meant_to() {
    let hosting = world(vec![hosted(1)], vec![seat(2, 1, 7)]);
    let connected = vec![7, 8];
    assert_eq!(send_serialized_lobby_packet(&hosting, None, &connected, 1), vec![7, 8]);
    assert_eq!(send_serialized_lobby_packet(&hosting, None, &connected, 2), vec![7]);
    assert!(send_serialized_lobby_packet(&hosting, None, &connected, 9).is_empty());
    let client = world(vec![joined(1, 8)], vec![]);
    assert_eq!(send_serialized_lobby_packet(&client, Some(7), &connected, 1), vec![8]);
    let unnamed = world(vec![lobby(1)], vec![]);
    assert_eq!(send_serialized_lobby_packet(&unnamed, Some(7), &connected, 1), vec![7]);
    assert!(send_serialized_lobby_packet(&unnamed, Some(9), &connected, 1).is_empty());
    assert!(send_serialized_lobby_packet(&unnamed, None, &connected, 1).is_empty());
}

#[test]
fn a_kicked_player_is_told_before_it_is_cut_off() {
    let hosting = world(vec![hosted(1)], vec![]);
    let removal = disconnect_removed_lobby_client(&hosting, seat(2, 1, 7)).expect("a client");
    assert_eq!((removal.disconnect, removal.tell), (7, Some(7)));
    let gone = world(vec![], vec![]);
    let removal = disconnect_removed_lobby_client(&gone, seat(2, 1, 7)).expect("a client");
    assert_eq!((removal.disconnect, removal.tell), (7, None));
    let waiting = SeatEntity { pending: true, ..seat(2, 1, 7) };
    assert_eq!(disconnect_removed_lobby_client(&hosting, waiting), None);
}

#[test]
fn every_message_finds_its_reader() {
    assert_eq!(
        dispatch_server_message(ServerMessage::Welcome { player_uuid: 1 }),
        Dispatch::Lobby(LobbyEvent::Welcome { player_uuid: 1 })
    );
    assert_eq!(
        dispatch_server_message(ServerMessage::Signal {
            sender_uuid: 3,
            data: "x".to_string()
        }),
        Dispatch::Signal { sender: 3, data: "x".to_string() }
    );
    assert_eq!(
        dispatch_server_message(ServerMessage::LobbyMigratable {
            lobby_id: 1,
            idle_timeout_secs: 2
        }),
        Dispatch::Lobby(LobbyEvent::LobbyMigratable { idle_timeout_secs: 2 })
    );
    assert_eq!(
        dispatch_server_message(ServerMessage::LobbyList { lobbies: vec![info()] }),
        Dispatch::Lobby(LobbyEvent::LobbyList { lobbies: vec![info()] })
    );
}

#[test]
fn a_connection_says_its_name_first() {
    let mut connection = ServerConnection::new("Ann".to_string());
    assert_eq!(
        connection.advance(ConnectionInput::Command(ClientMessage::ListLobbies)),
        ConnectionStep::Wait
    );
    assert_eq!(
        connection.advance(ConnectionInput::Opened),
        ConnectionStep::Send(ClientMessage::Authenticate { display_name: "Ann".to_string() })
    );
    assert_eq!(connection.advance(ConnectionInput::Sent), ConnectionStep::Wait);
    assert_eq!(connection.phase, ConnectionPhase::Open);
    assert_eq!(
        connection.advance(ConnectionInput::Message(ServerMessage::Welcome { player_uuid: 1 })),
        ConnectionStep::Deliver(Dispatch::Lobby(LobbyEvent::Welcome { player_uuid: 1 }))
    );
    assert_eq!(
        connection.advance(ConnectionInput::Command(ClientMessage::ListLobbies)),
        ConnectionStep::Send(ClientMessage::ListLobbies)
    );
    assert_eq!(connection.advance(ConnectionInput::EncodeFailed), ConnectionStep::Wait);
    assert_eq!(
        connection.advance(ConnectionInput::Closed),
        ConnectionStep::Stop { lost: true }
    );
    assert_eq!(
        connection.advance(ConnectionInput::Closed),
        ConnectionStep::Stop { lost: false },
        "the end is heard once"
    );
}

#[test]
fn letting_go_of_a_connection_is_no_loss() {
    let mut connection = ServerConnection::new("Ann".to_string());
    connection.advance(ConnectionInput::Opened);
    connection.advance(ConnectionInput::Sent);
    assert_eq!(
        connection.advance(ConnectionInput::CommandsEnded),
        ConnectionStep::Stop { lost: false }
    );
    let mut unopened = ServerConnection::new("Ann".to_string());
    assert_eq!(
        unopened.advance(ConnectionInput::OpenFailed),
        ConnectionStep::Stop { lost: true }
    );
}

#[test]
fn a_signaller_hears_of_peers_alone() {
    assert_eq!(
        signaller_event(&ServerMessage::Welcome { player_uuid: 4 }),
        Some(SignallerEvent::IdAssigned(4))
    );
    assert_eq!(
        signaller_event(&ServerMessage::PlayerJoined { player_uuid: 4 }),
        Some(SignallerEvent::NewPeer(4))
    );
    assert_eq!(
        signaller_event(&ServerMessage::PlayerLeft { player_uuid: 4 }),
        Some(SignallerEvent::PeerLeft(4))
    );
    assert_eq!(
        signaller_event(&ServerMessage::LobbyError { reason: "no".to_string() }),
        None
    );
    assert_eq!(
        request_message(SignallerRequest::Signal { receiver: 4, data: "x".to_string() }),
        ClientMessage::Signal { receiver_uuid: 4, data: "x".to_string() }
    );
    assert_eq!(request_message(SignallerRequest::KeepAlive), ClientMessage::KeepAlive);
}

#[test]
fn a_builder_makes_one_signaller() {
    let mut builder = EnsembleSignallerBuilder::new("ann".to_string());
    let mut connection = builder.new_signaller().expect("the first");
    match connection.advance(ConnectionInput::Opened) {
        ConnectionStep::Send(ClientMessage::Authenticate { display_name }) => {
            assert_eq!(display_name, "ann");
        }
        other => panic!("{other:?}"),
    }
    match builder.new_signaller() {
        Err(error) => {
            assert_eq!(error, SignallerError::CalledTwice);
            assert_eq!(
                error.reason(),
                "SignallerBuilder::new_signaller called more than once"
            );
        }
        Ok(_) => panic!("a second signaller"),
    }
}

#[test]
fn a_client_notes_the_route_to_its_host_alone() {
    let client = world(vec![joined(1, HOST)], vec![]);
    let routes = vec![
        RouteChange { peer: OTHER, route: PeerRoute::Relayed },
        RouteChange { peer: HOST, route: PeerRoute::Direct },
    ];
    assert_eq!(
        reconcile_routes(&client, &routes),
        vec![RouteUpdate { entity: 1, route: PeerRoute::Direct }]
    );
    assert!(reconcile_routes(&client, &vec![routes[0]]).is_empty());
}

#[test]
fn pongs_echo_pings_and_are_smoothed_with_what_was_known() {
    let echo = |sender, sent_at| ReceivedEcho { sender, sent_at };
    assert_eq!(
        respond_to_pings(&vec![echo(Some(HOST), 5), echo(None, 6), echo(Some(OTHER), 7)]),
        vec![PongReply { to: HOST, sent_at: 5 }, PongReply { to: OTHER, sent_at: 7 }]
    );

    let joined = SessionWorld {
        lobbies: vec![lobby(4)],
        seats: vec![],
        participants: vec![],
    };
    let known = vec![PeerRtt { entity: 9, nanos: 1 }, PeerRtt { entity: 4, nanos: 100 }];
    let pongs = vec![
        echo(Some(HOST), 950),
        echo(Some(HOST), 1_001),
        echo(None, 900),
        echo(Some(HOST), 800),
    ];
    assert_eq!(
        receive_pongs(&joined, &known, &pongs, 1_000),
        vec![PeerRtt { entity: 4, nanos: 90 }, PeerRtt { entity: 4, nanos: 120 }]
    );
    assert_eq!(
        receive_pongs(&joined, &vec![], &vec![echo(Some(HOST), 950)], 1_000),
        vec![PeerRtt { entity: 4, nanos: 50 }]
    );
}

#[test]
fn pings_measure_the_way_there_and_back() {
    let mut timer = PingTimer::new();
    assert!(!timer.tick(false, 0), "the timer runs, and there is nobody to ping");
    assert!(!timer.tick(true, 999_999_999));
    assert!(timer.tick(true, 1));
    assert_eq!(smooth(None, 50), 50);
    assert_eq!(smooth(Some(100), 50), 90);
    assert_eq!(smooth(Some(u64::MAX), u64::MAX), u64::MAX);
    let hosting = world(vec![hosted(1)], vec![seat(2, 1, 7)]);
    assert_eq!(receive_pong(&hosting, Some(7), 10, 35), Some((25, vec![2])));
    assert_eq!(receive_pong(&hosting, Some(8), 10, 35), Some((25, vec![])));
    assert_eq!(receive_pong(&hosting, None, 10, 35), None);
    assert_eq!(receive_pong(&hosting, Some(7), 36, 35), None);
    let client = world(vec![joined(1, HOST)], vec![]);
    assert_eq!(receive_pong(&client, Some(HOST), 10, 35), Some((25, vec![1])));
}
