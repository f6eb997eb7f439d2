//! The signalling server: lobbies, who may talk to whom, limits, and its relay.

use ensemble::protocol::{ClientMessage, ServerMessage, CAPABILITY_HOST_MIGRATION};
use ensemble::server::limiter::{RateLimiter, TokenBucket, Verdict};
use ensemble::server::lobby::{
    clamp_max_players, close_lobby, create_lobby, create_lobby_as, join_lobby, join_lobby_by_code,
    leave_lobby, list_lobbies, refusal, refuse_entry, MAX_PLAYERS,
};
use ensemble::server::relay::{
    AuthError, IpAddress, RelayConfig, RelayConfigError, RelayCredentials, RelayError, RelayUser,
    StaticAuth, DEFAULT_LISTEN_PORT, DEFAULT_RELAY_PORTS,
};
use ensemble::server::settings::{
    relay_config, relay_ports, users, PublicIp, RelaySettings, SettingsError,
};
use ensemble::server::state::{Limits, Milli, Outgoing, ServerState};
use ensemble::server::ws_handler::{relay_allowed, Frame, Session, Step};

/// A server that these players are connected to, all of whom understand host migration if
/// `migrates` says so.
fn server(players: &[u128], migrates: bool) -> ServerState {
    let mut state = ServerState::new();
    for player in players {
        let mut session = Session::new(&state, 0);
        session.authenticate_as(&mut state, *player, format!("player {player}"));
        if migrates {
            session.handle_message(
                &mut state,
                0,
                ClientMessage::DeclareCapabilities { capabilities: CAPABILITY_HOST_MIGRATION },
            );
        }
    }
    state.take_outbox();
    state
}

fn told(state: &mut ServerState) -> Vec<(u128, ServerMessage)> {
    state
        .take_outbox()
        .into_iter()
        .map(|Outgoing { to, message }| (to, message))
        .collect()
}

fn refused(reason: &str) -> Result<(), ServerMessage> {
    Err(ServerMessage::LobbyError { reason: reason.to_string() })
}

#[test]
fn a_lobby_has_a_sensible_size() {
    assert_eq!(clamp_max_players(0), MAX_PLAYERS, "as many as the server allows");
    assert_eq!(clamp_max_players(1), 1);
    assert_eq!(clamp_max_players(8), 8);
    assert_eq!(clamp_max_players(MAX_PLAYERS), MAX_PLAYERS);
    assert_eq!(clamp_max_players(u32::MAX), MAX_PLAYERS);
}

#[test]
fn the_first_free_id_and_code_are_the_lowest() {
    let mut state = server(&[1, 2], false);
    assert_eq!(state.first_free_id(), Some(1));
    assert_eq!(state.first_free_code(), Some("AAAA".to_string()));
    assert_eq!(create_lobby_as(&mut state, 1, 4, 1, "AAAA".to_string()), Ok(()));
    assert_eq!(create_lobby_as(&mut state, 2, 4, 3, "AAAC".to_string()), Ok(()));
    assert_eq!(state.first_free_id(), Some(2));
    assert_eq!(state.first_free_code(), Some("AAAB".to_string()));
}

#[test]
fn a_full_server_refuses_and_charges_for_it() {
    let mut state = ServerState::new();
    let mut letters = [b'A'; 4];
    let mut id: u64 = 1;
    while let Some(last) = letters.iter().rposition(|letter| *letter < b'Z') {
        let code: String = letters.iter().map(|letter| char::from(*letter)).collect();
        Session::new(&state, 0).authenticate_as(&mut state, u128::from(id), String::new());
        assert_eq!(create_lobby_as(&mut state, u128::from(id), 2, id, code), Ok(()));
        letters[last] += 1;
        letters[last + 1..].fill(b'A');
        id += 1;
    }
    let mut host = Session::new(&state, 0);
    host.authenticate_as(&mut state, u128::from(id), String::new());
    state.take_outbox();
    let ask = || Frame::Binary(Some(ClientMessage::CreateLobby { max_players: 2 }));
    assert!(host.frame_asks_for_a_lobby(&state, 0, &ask()));
    assert!(state.has_room(), "ZZZZ is left");
    assert!(matches!(host.on_frame_with_room(&mut state, 0, ask()), Step::Continue(None)));

    let mut late = Session::new(&state, 0);
    late.authenticate_as(&mut state, u128::MAX, String::new());
    state.take_outbox();
    assert!(!state.has_room());
    for reason in ["Server is full", "Server is full", "rate limited"] {
        match late.on_frame_with_room(&mut state, 0, ask()) {
            Step::Continue(Some(reply)) => assert_eq!(Err(reply), refused(reason)),
            _ => panic!("no refusal"),
        }
    }
    assert!(told(&mut state).is_empty());
    match host.on_frame_with_room(&mut state, 0, ask()) {
        Step::Continue(Some(reply)) => assert_eq!(Err(reply), refused("Already in a lobby")),
        _ => panic!("no refusal"),
    }
}

#[test]
fn entering_is_refused_for_a_reason() {
    let mut state = server(&[1], false);
    assert_eq!(refuse_entry(&state, 1), None);
    assert_eq!(refuse_entry(&state, 2), Some("Not authenticated"));
    assert_eq!(create_lobby_as(&mut state, 1, 4, 9, "ABCD".to_string()), Ok(()));
    assert_eq!(refuse_entry(&state, 1), Some("Already in a lobby"));
    leave_lobby(&mut state, 1);
    assert_eq!(refuse_entry(&state, 1), None, "whoever left may enter again");
}

#[test]
fn a_refusal_says_why() {
    assert_eq!(refusal("no"), ServerMessage::LobbyError { reason: "no".to_string() });
}

#[test]
fn a_created_lobby_can_be_found_by_its_code() {
    let mut state = server(&[1, 2], false);
    assert_eq!(create_lobby(&mut state, 1, 4), Ok(()));
    let messages = told(&mut state);
    let (lobby_id, code) = match &messages[..] {
        [(1, ServerMessage::LobbyCreated { lobby_id, code })] => (*lobby_id, code.clone()),
        other => panic!("{other:?}"),
    };
    assert_eq!(code.len(), 4);
    assert!(code.chars().all(|letter| letter.is_ascii_uppercase()));
    assert_eq!(state.lobby_by_code(&code), Some(lobby_id));
    // A code is read in any case.
    assert_eq!(join_lobby_by_code(&mut state, 2, &code.to_lowercase()), Ok(()));
    assert_eq!(
        told(&mut state),
        vec![
            (1, ServerMessage::PlayerJoined { player_uuid: 2 }),
            (
                2,
                ServerMessage::LobbyJoined { lobby_id, host_uuid: 1, existing_members: vec![1] }
            ),
        ]
    );
}

#[test]
fn lobbies_get_different_ids_and_codes() {
    let players: Vec<u128> = (1..=20).collect();
    let mut state = server(&players, false);
    let mut ids = Vec::new();
    let mut codes = Vec::new();
    for player in players {
        create_lobby(&mut state, player, 4).expect("created");
        for (_, message) in told(&mut state) {
            if let ServerMessage::LobbyCreated { lobby_id, code } = message {
                ids.push(lobby_id);
                codes.push(code);
            }
        }
    }
    assert_eq!(ids.len(), 20);
    ids.sort();
    ids.dedup();
    codes.sort();
    codes.dedup();
    assert_eq!((ids.len(), codes.len()), (20, 20));
}

fn lobby_of_three(migrates: bool) -> ServerState {
    let mut state = server(&[1, 2, 3], migrates);
    create_lobby_as(&mut state, 1, 3, 7, "ABCD".to_string()).expect("created");
    join_lobby(&mut state, 2, 7).expect("joined");
    join_lobby(&mut state, 3, 7).expect("joined");
    state.take_outbox();
    state
}

#[test]
fn a_join_is_refused_for_a_reason() {
    let mut state = lobby_of_three(false);
    assert_eq!(join_lobby(&mut state, 9, 7), refused("Not authenticated"));
    assert_eq!(join_lobby(&mut state, 2, 7), refused("Already in a lobby"));
    let mut state = server(&[1, 2, 3], false);
    create_lobby_as(&mut state, 1, 1, 7, "ABCD".to_string()).expect("created");
    assert_eq!(join_lobby(&mut state, 2, 7), refused("Lobby is full"));
    assert_eq!(join_lobby(&mut state, 2, 8), refused("Lobby not found"));
    assert_eq!(join_lobby_by_code(&mut state, 2, "WXYZ"), refused("Lobby not found"));
    assert_eq!(create_lobby(&mut state, 1, 4), refused("Already in a lobby"));
    assert_eq!(create_lobby(&mut state, 9, 4), refused("Not authenticated"));
}

#[test]
fn a_member_leaving_is_told_to_the_rest() {
    let mut state = lobby_of_three(false);
    leave_lobby(&mut state, 2);
    assert_eq!(
        told(&mut state),
        vec![
            (1, ServerMessage::PlayerLeft { player_uuid: 2 }),
            (3, ServerMessage::PlayerLeft { player_uuid: 2 }),
            // The one who leaves hears of everybody it was connected to.
            (2, ServerMessage::PlayerLeft { player_uuid: 1 }),
            (2, ServerMessage::PlayerLeft { player_uuid: 3 }),
        ]
    );
    assert_eq!(state.lobby(7).map(|lobby| lobby.members), Some(vec![1, 3]));
    assert_eq!(state.lobby_of(2), None);
}

#[test]
fn a_lobby_nobody_can_take_over_ends_with_its_host() {
    let mut state = lobby_of_three(false);
    leave_lobby(&mut state, 1);
    let ended = || ServerMessage::Disconnected { reason: "Host left the lobby".to_string() };
    assert_eq!(
        told(&mut state),
        vec![
            (2, ended()),
            (3, ended()),
            (1, ServerMessage::PlayerLeft { player_uuid: 2 }),
            (1, ServerMessage::PlayerLeft { player_uuid: 3 }),
        ]
    );
    assert!(state.lobby(7).is_none());
    assert_eq!(state.lobby_by_code(&"ABCD".to_string()), None);
    assert_eq!(state.lobby_of(2), None);
}

#[test]
fn a_migratable_lobby_is_handed_to_its_longest_member() {
    let mut state = lobby_of_three(true);
    leave_lobby(&mut state, 1);
    let messages = told(&mut state);
    for to in [2, 3] {
        assert!(messages.iter().any(|(told, message)| *told == to
            && matches!(
                message,
                ServerMessage::HostChanged { previous_host: 1, new_host: 2, .. }
            )));
    }
    let lobby = state.lobby(7).expect("it survives");
    assert_eq!((lobby.host_uuid, lobby.members), (2, vec![2, 3]));
}

#[test]
fn a_closed_lobby_is_handed_to_nobody() {
    let mut state = lobby_of_three(true);
    close_lobby(&mut state, 2);
    assert!(told(&mut state).is_empty(), "only the host closes");
    close_lobby(&mut state, 1);
    assert!(state.lobby(7).is_none());
    assert!(told(&mut state)
        .iter()
        .all(|(_, message)| !matches!(message, ServerMessage::HostChanged { .. })));
}

#[test]
fn the_list_counts_the_players() {
    let state = lobby_of_three(false);
    match list_lobbies(&state) {
        ServerMessage::LobbyList { lobbies } => {
            assert_eq!(lobbies.len(), 1);
            assert_eq!(lobbies[0].lobby_id, 7);
            assert_eq!(lobbies[0].code, "ABCD");
            assert_eq!(lobbies[0].host_name, "player 1");
            assert_eq!((lobbies[0].player_count, lobbies[0].max_players), (3, 3));
        }
        other => panic!("{other:?}"),
    }
}

#[test]
fn signals_stay_inside_a_lobby() {
    let mut state = lobby_of_three(false);
    assert!(relay_allowed(&state, 1, 2));
    assert!(relay_allowed(&state, 2, 1));
    let mut stranger = Session::new(&state, 0);
    stranger.authenticate_as(&mut state, 9, "stranger".to_string());
    assert!(!relay_allowed(&state, 9, 1));
    assert!(!relay_allowed(&state, 1, 9));
    let reply = stranger.handle_message(
        &mut state,
        0,
        ClientMessage::Signal { receiver_uuid: 1, data: "x".to_string() },
    );
    assert!(reply.is_none());
    assert!(told(&mut state).is_empty());
}

#[test]
fn a_signal_reaches_the_peer_it_is_for() {
    let mut state = lobby_of_three(false);
    let mut session = Session::new(&state, 0);
    session.player_uuid = Some(2);
    session.handle_message(
        &mut state,
        0,
        ClientMessage::Signal { receiver_uuid: 1, data: "sdp".to_string() },
    );
    assert_eq!(
        told(&mut state),
        vec![(1, ServerMessage::Signal { sender_uuid: 2, data: "sdp".to_string() })]
    );
}

#[test]
fn every_connection_gets_a_name_of_its_own() {
    let mut state = ServerState::new();
    let mut names = Vec::new();
    for _ in 0..2 {
        let mut session = Session::new(&state, 0);
        let step = session.on_frame(
            &mut state,
            0,
            Frame::Binary(Some(ClientMessage::Authenticate { display_name: "Ann".to_string() })),
        );
        match step {
            Step::Continue(Some(ServerMessage::Welcome { player_uuid })) => {
                assert_eq!(session.player_uuid, Some(player_uuid));
                assert_eq!(player_uuid >> 76 & 0xF, 4, "a random uuid");
                assert_eq!(player_uuid >> 62 & 0x3, 2, "of the usual layout");
                names.push(player_uuid);
            }
            _ => panic!("no welcome"),
        }
    }
    assert_ne!(names[0], names[1]);
}

#[test]
fn nothing_is_done_for_a_stranger() {
    let mut state = ServerState::new();
    let mut session = Session::new(&state, 0);
    let step = session.on_frame(
        &mut state,
        0,
        Frame::Binary(Some(ClientMessage::JoinLobby { lobby_id: 1 })),
    );
    match step {
        Step::Continue(Some(ServerMessage::LobbyError { reason })) => {
            assert_eq!(reason, "Not authenticated");
        }
        _ => panic!("not refused"),
    }
}

#[test]
fn hanging_up_leaves_the_lobby() {
    let mut state = lobby_of_three(false);
    let mut session = Session::new(&state, 0);
    session.player_uuid = Some(3);
    session.hang_up(&mut state);
    assert!(state.connection(3).is_none());
    assert_eq!(state.lobby(7).map(|lobby| lobby.members), Some(vec![1, 2]));
}

#[test]
fn a_new_name_shows_in_the_list() {
    let mut state = lobby_of_three(false);
    let mut session = Session::new(&state, 0);
    session.player_uuid = Some(1);
    session.handle_message(
        &mut state,
        0,
        ClientMessage::SetDisplayName { display_name: "Ann".to_string() },
    );
    assert_eq!(state.lobby(7).map(|lobby| lobby.host_name), Some("Ann".to_string()));
}

#[test]
fn a_flood_is_refused_and_then_cut_off() {
    let limits = Limits {
        idle_timeout_nanos: 60_000_000_000,
        messages_per_second: Milli(1_000),
        message_burst: Milli(2_000),
        lobby_ops_per_second: Milli(1_000),
        lobby_ops_burst: Milli(1_000),
    };
    let mut limiter = RateLimiter::new(&limits, 0);
    let verdicts: Vec<Verdict> = (0..21).map(|_| limiter.frame(0)).collect();
    assert_eq!(verdicts[..2], [Verdict::Allow, Verdict::Allow]);
    assert!(verdicts[2..20].iter().all(|verdict| *verdict == Verdict::Refuse));
    assert_eq!(verdicts[20], Verdict::Close);
    assert!(limiter.lobby_op(0));
    assert!(!limiter.lobby_op(0));
    assert!(limiter.lobby_op(1_000_000_000));
}

#[test]
fn a_bucket_refills_at_its_rate() {
    let mut bucket = TokenBucket::new(1_000, 500, 0);
    assert!(bucket.try_take(0));
    assert!(!bucket.try_take(1_999_999_999));
    assert!(bucket.try_take(2_000_000_000));
}

#[test]
fn limited_sessions_are_answered_or_closed() {
    let mut state = ServerState::with_limits(Limits {
        message_burst: Milli(1_000),
        messages_per_second: Milli(1),
        ..Limits::default()
    });
    let mut session = Session::new(&state, 0);
    let mut next = || session.on_frame(&mut state, 0, Frame::Other);
    assert!(matches!(next(), Step::Continue(None)));
    for _ in 0..9 {
        match next() {
            Step::Continue(Some(ServerMessage::LobbyError { reason })) => {
                assert_eq!(reason, "rate limited");
            }
            _ => panic!("not refused"),
        }
    }
    assert!(matches!(next(), Step::Stop));
}

#[test]
fn a_client_that_closes_is_let_go() {
    let mut state = ServerState::new();
    let mut session = Session::new(&state, 0);
    assert!(matches!(session.on_frame(&mut state, 0, Frame::Close), Step::Stop));
    let mut session = Session::new(&state, 0);
    assert!(matches!(
        session.on_frame(&mut state, 0, Frame::Binary(None)),
        Step::Continue(None)
    ));
}

#[test]
fn the_defaults_are_the_documented_ones() {
    let limits = ServerState::new().limits();
    assert_eq!(limits, Limits::default());
    assert_eq!(limits.idle_timeout_nanos, 60_000_000_000);
    assert_eq!(limits.messages_per_second, Milli(20_000));
    assert_eq!(limits.message_burst, Milli(40_000));
}

fn pair(username: &str, password: &str) -> RelayUser {
    RelayUser { username: username.to_string(), password: password.to_string() }
}

#[test]
fn a_relay_needs_a_range_and_an_ipv4_address() {
    let credentials = || RelayCredentials::Static {
        username: "u".to_string(),
        password: "p".to_string(),
    };
    let config = RelayConfig::new(IpAddress::V4(0x01020304), credentials());
    assert_eq!(config.listen_port, DEFAULT_LISTEN_PORT);
    assert_eq!(config.relay_ports, DEFAULT_RELAY_PORTS);
    assert_eq!(config.validate(), Ok(()));
    let backwards = RelayConfig { relay_ports: (10, 9), ..config };
    assert_eq!(
        backwards.validate(),
        Err(RelayConfigError::NotARange { min_port: 10, max_port: 9 })
    );
    let from_zero = RelayConfig { relay_ports: (0, 9), ..backwards };
    assert_eq!(
        from_zero.validate(),
        Err(RelayConfigError::NotARange { min_port: 0, max_port: 9 })
    );
    let v6 = RelayConfig::new(IpAddress::V6(1), credentials());
    assert_eq!(v6.validate(), Err(RelayConfigError::NotIpv4));
}

#[test]
fn a_relay_that_would_not_start_says_why() {
    let credentials = RelayCredentials::Secret("s".to_string());
    let config = RelayConfig::new(IpAddress::V4(0x01020304), credentials);
    let one_port = RelayConfig { relay_ports: (7, 7), listen_port: 99, ..config };
    assert_eq!(one_port.port_to_bind(), Ok(99), "a range of one port is a range");
    let taken = one_port.bind_failed("address in use".to_string());
    assert_eq!(taken, RelayError::Bind { port: 99, source: "address in use".to_string() });
    assert_eq!(taken.reason(), "could not bind udp/99 for the relay: address in use");
    let backwards = RelayConfig { relay_ports: (100, 20), ..one_port };
    let refused = backwards.port_to_bind().expect_err("no range");
    assert_eq!(refused.reason(), "relay port range 100-20 is not a range");
    let v6 = RelayConfig { relay_ports: (7, 8), public_ip: IpAddress::V6(1), ..backwards };
    assert_eq!(v6.port_to_bind(), Err(RelayError::Config(RelayConfigError::NotIpv4)));
    assert_eq!(
        RelayConfigError::NotIpv4.reason(),
        "public_ip must be IPv4: an allocation advertises a single address"
    );
    assert_eq!(
        RelayError::Turn("no conns".to_string()).reason(),
        "the relay would not start: no conns"
    );
}

#[test]
fn wrong_settings_are_named() {
    let says = |error: SettingsError, text: &str| assert_eq!(error.reason(), text);
    let raw = || "1:2".to_string();
    says(SettingsError::NotMinMax { raw: raw() }, "TURN_RELAY_PORTS wants MIN-MAX, got 1:2");
    says(SettingsError::NotARelayPort { raw: raw() }, "TURN_RELAY_PORTS: 1:2 is not a port");
    says(SettingsError::NotAPort { raw: raw() }, "TURN_PORT is not a port: 1:2");
    says(
        SettingsError::NotAPair { entry: raw() },
        "TURN_USERS wants `user:password`, got `1:2`",
    );
    says(SettingsError::EmptyHalf { entry: raw() }, "TURN_USERS entry `1:2` has an empty half");
    says(SettingsError::PasswordMissing, "TURN_USER is set but TURN_PASSWORD is not");
    says(SettingsError::UserMissing, "TURN_PASSWORD is set but TURN_USER is not");
    says(
        SettingsError::PublicIpMissing,
        "relay credentials are set, so TURN_PUBLIC_IP must be too",
    );
    says(SettingsError::PublicIpUnreadable, "TURN_PUBLIC_IP is not an IP address");
}

#[test]
fn a_relay_knows_its_users() {
    let auth = StaticAuth { users: vec![pair("ann", "one"), pair("ann", "two")] };
    let key = auth.auth_handle("ann", "realm").expect("ann is known");
    // The MD5 of "ann:realm:two", which is what TURN's long-term credentials are keyed by.
    assert_eq!(key.len(), 16);
    assert_eq!(key, turn::auth::generate_auth_key("ann", "realm", "two"));
    assert_ne!(key, turn::auth::generate_auth_key("ann", "realm", "one"));
    assert_eq!(auth.auth_handle("bob", "realm"), Err(AuthError::NoSuchUser));
}

#[test]
fn fixed_credentials_are_told_from_derived_ones() {
    let secret = RelayCredentials::Secret("s".to_string());
    assert_eq!(secret.into_static().err(), Some("s".to_string()));
    let fixed = RelayCredentials::Static { username: "u".to_string(), password: "p".to_string() };
    assert_eq!(fixed.into_static().expect("fixed").users, vec![pair("u", "p")]);
    let several = RelayCredentials::Users(vec![pair("a", "b")]);
    assert_eq!(several.into_static().expect("fixed").users, vec![pair("a", "b")]);
}

fn set(value: &str) -> Option<String> {
    Some(value.to_string())
}

#[test]
fn a_port_range_is_read() {
    assert_eq!(relay_ports(&None), Ok(DEFAULT_RELAY_PORTS));
    assert_eq!(relay_ports(&set("100-200")), Ok((100, 200)));
    assert_eq!(relay_ports(&set(" 100 - 200 ")), Ok((100, 200)));
    assert_eq!(relay_ports(&set("\u{3000}100\u{85}-\u{2007}200\t")), Ok((100, 200)));
    assert!(relay_ports(&set("\u{200b}100-200")).is_err(), "no white space to Unicode");
    assert_eq!(relay_ports(&set("+1-2")), Ok((1, 2)));
    assert_eq!(
        relay_ports(&set("100")),
        Err(SettingsError::NotMinMax { raw: "100".to_string() })
    );
    assert_eq!(
        relay_ports(&set("x-200")),
        Err(SettingsError::NotARelayPort { raw: "x".to_string() })
    );
    assert_eq!(
        relay_ports(&set("1-65536")),
        Err(SettingsError::NotARelayPort { raw: "65536".to_string() })
    );
}

#[test]
fn users_are_read_from_a_list_and_a_pair() {
    assert_eq!(users(&None, &None, &None), Ok(vec![]));
    let read = users(&set("ann:one, bob:two"), &set("cid"), &set("three")).expect("users");
    let mut names: Vec<&str> = read.iter().map(|user| user.username.as_str()).collect();
    names.sort();
    assert_eq!(names, vec!["ann", "bob", "cid"]);
    assert_eq!(
        users(&set("ann"), &None, &None),
        Err(SettingsError::NotAPair { entry: "ann".to_string() })
    );
    assert_eq!(
        users(&set("ann:"), &None, &None),
        Err(SettingsError::EmptyHalf { entry: "ann:".to_string() })
    );
    assert_eq!(users(&None, &set("ann"), &None), Err(SettingsError::PasswordMissing));
    assert_eq!(users(&None, &None, &set("one")), Err(SettingsError::UserMissing));
}

fn settings() -> RelaySettings {
    RelaySettings {
        users: set("ann:one"),
        user: None,
        password: None,
        public_ip: PublicIp::Address(IpAddress::V4(1)),
        realm: None,
        port: None,
        relay_ports: None,
    }
}

#[test]
fn a_deployment_has_a_relay_once_it_has_users() {
    let none = RelaySettings { users: None, ..settings() };
    assert_eq!(relay_config(none), Ok(None));
    let config = relay_config(settings()).expect("fine").expect("a relay");
    assert_eq!(config.listen_port, DEFAULT_LISTEN_PORT);
    assert_eq!(config.credentials, RelayCredentials::Users(vec![pair("ann", "one")]));
    let chosen = RelaySettings {
        realm: set("game"),
        port: set("5000"),
        relay_ports: set("1-2"),
        ..settings()
    };
    let config = relay_config(chosen).expect("fine").expect("a relay");
    assert_eq!((config.listen_port, config.relay_ports), (5000, (1, 2)));
    assert_eq!(config.realm, "game");
}

#[test]
fn a_deployment_says_what_is_missing() {
    let unset = RelaySettings { public_ip: PublicIp::Unset, ..settings() };
    assert_eq!(relay_config(unset), Err(SettingsError::PublicIpMissing));
    let unreadable = RelaySettings { public_ip: PublicIp::Unreadable, ..settings() };
    assert_eq!(relay_config(unreadable), Err(SettingsError::PublicIpUnreadable));
    let port = RelaySettings { port: set("x"), ..settings() };
    assert_eq!(relay_config(port), Err(SettingsError::NotAPort { raw: "x".to_string() }));
}
