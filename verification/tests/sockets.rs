//! Connections between peers: their signals, states, candidates and routes.

use ensemble::sockets::candidates::{CandidateGate, RemoteCandidates};
use ensemble::sockets::negotiation::{Negotiation, NegotiationStep, Offering};
use ensemble::sockets::recovery::Role;
use ensemble::sockets::route::{selected_route, PeerRoute, StatsRecord};
use ensemble::sockets::signal::{IceServer, IceServers, OutgoingSignal, PeerSignal};
use ensemble::sockets::socket::{
    EnsembleSocket, PeerChange, PeerState, RouteChange, SignalAction, ICE_RESTART_TIMEOUT,
};

fn said(peer: u128, states: &[PeerState]) -> Vec<PeerChange> {
    states.iter().map(|state| PeerChange { peer, state: *state }).collect()
}

fn text(text: &str) -> String {
    text.to_string()
}

#[test]
fn a_route_has_a_label() {
    assert_eq!(PeerRoute::Direct.label(), "direct");
    assert_eq!(PeerRoute::Relayed.label(), "relayed");
    assert_eq!(PeerRoute::over(false, false), PeerRoute::Direct);
    assert_eq!(PeerRoute::over(false, true), PeerRoute::Relayed);
    assert_eq!(PeerRoute::over(true, false), PeerRoute::Relayed);
}

#[test]
fn a_stun_server_needs_no_credentials() {
    let server = IceServer::stun("stun:example.org:3478");
    assert_eq!(server.urls, vec!["stun:example.org:3478"]);
    assert_eq!(server.username, "");
    assert_eq!(server.credential, "");
    assert!(IceServers::none().0.is_empty());
    let default = IceServers::default();
    assert_eq!(
        default.0[0].urls,
        vec!["stun:stun.l.google.com:19302", "stun:stun1.l.google.com:19302"]
    );
}

#[test]
fn a_socket_uses_the_servers_it_is_given() {
    let socket = EnsembleSocket::new();
    assert_eq!(socket.ice_servers().0.len(), 1);
    let socket = socket.with_ice_servers(IceServers::none());
    assert!(socket.ice_servers().0.is_empty());
}

#[test]
fn a_peer_is_offered_to_once() {
    let mut socket = EnsembleSocket::new();
    assert!(socket.connect_peer(1));
    assert!(!socket.connect_peer(1));
    assert!(socket.has_peer(1));
    assert_eq!(
        socket.receive_signal(1, PeerSignal::Offer(text("glare"))),
        SignalAction::RefuseGlare
    );
    assert_eq!(
        socket.receive_signal(1, PeerSignal::Answer(text("sdp"))),
        SignalAction::Apply(PeerSignal::Answer(text("sdp")))
    );
}

#[test]
fn a_restart_offer_is_applied_by_whoever_answered() {
    let mut socket = EnsembleSocket::new();
    assert_eq!(
        socket.receive_signal(1, PeerSignal::IceCandidate(text("early"))),
        SignalAction::NoConnection
    );
    assert_eq!(
        socket.receive_signal(1, PeerSignal::Offer(text("first"))),
        SignalAction::Open(text("first"))
    );
    assert_eq!(
        socket.receive_signal(1, PeerSignal::Offer(text("restart"))),
        SignalAction::Apply(PeerSignal::Offer(text("restart")))
    );
}

#[test]
fn states_are_passed_on_once_and_in_order() {
    let mut socket = EnsembleSocket::new();
    socket.connect_peer(1);
    let heard = socket.update_peers(
        &said(
            1,
            &[
                PeerState::Connecting,
                PeerState::Reconnecting,
                PeerState::Connected,
                PeerState::Connected,
                PeerState::Reconnecting,
                PeerState::Connected,
            ],
        ),
        0,
    );
    let states: Vec<PeerState> = heard.iter().map(|change| change.state).collect();
    assert_eq!(
        states,
        vec![
            PeerState::Connecting,
            PeerState::Connected,
            PeerState::Reconnecting,
            PeerState::Connected,
        ]
    );
    assert_eq!(socket.connected_peers(), vec![1]);
}

#[test]
fn a_restart_that_takes_too_long_is_a_failure() {
    let mut socket = EnsembleSocket::new();
    socket.connect_peer(1);
    socket.update_peers(&said(1, &[PeerState::Connected, PeerState::Reconnecting]), 10);
    assert_eq!(socket.connected_peers(), vec![1], "what is queued still arrives");
    assert!(socket.update_peers(&vec![], 10 + ICE_RESTART_TIMEOUT - 1).is_empty());
    let heard = socket.update_peers(&vec![], 10 + ICE_RESTART_TIMEOUT);
    assert_eq!(heard, said(1, &[PeerState::Failed]));
    assert!(socket.connected_peers().is_empty());
}

#[test]
fn nothing_is_heard_after_a_failure() {
    let mut socket = EnsembleSocket::new();
    socket.connect_peer(1);
    let heard = socket.update_peers(
        &said(1, &[PeerState::Failed, PeerState::Connected, PeerState::Disconnected]),
        0,
    );
    assert_eq!(heard, said(1, &[PeerState::Failed]));
}

#[test]
fn routes_are_told_when_they_change() {
    let mut socket = EnsembleSocket::new();
    let direct = RouteChange { peer: 1, route: PeerRoute::Direct };
    let relayed = RouteChange { peer: 1, route: PeerRoute::Relayed };
    assert_eq!(socket.update_routes(&vec![direct, direct, relayed]), vec![direct, relayed]);
    assert_eq!(socket.route(1), Some(PeerRoute::Relayed));
    assert_eq!(socket.route(2), None);
}

#[test]
fn a_disconnected_peer_is_forgotten() {
    let mut socket = EnsembleSocket::new();
    socket.connect_peer(1);
    socket.connect_peer(2);
    assert!(socket.disconnect_peer(1));
    assert!(!socket.disconnect_peer(1));
    assert!(!socket.has_peer(1));
    socket.disconnect_all();
    assert!(!socket.has_peer(2));
}

#[test]
fn candidates_wait_behind_their_description() {
    let mut gate = CandidateGate::new();
    assert_eq!(gate.send(text("free")), Some(text("free")));
    gate.hold();
    gate.hold();
    assert_eq!(gate.send(text("one")), None);
    assert!(gate.release().is_empty(), "another description is being made");
    assert_eq!(gate.send(text("two")), None);
    assert_eq!(gate.release(), vec![text("one"), text("two")]);
    assert_eq!(gate.send(text("three")), Some(text("three")));
}

#[test]
fn remote_candidates_wait_for_the_remote_description() {
    let mut candidates = RemoteCandidates::new();
    assert_eq!(candidates.add_ice_candidate(text("early")), None);
    assert_eq!(candidates.description_set(), vec![text("early")]);
    assert_eq!(candidates.add_ice_candidate(text("late")), Some(text("late")));
}

#[test]
fn an_offer_is_applied_before_it_is_answered() {
    let mut negotiation = Negotiation::new();
    assert!(!negotiation.is_holding());
    assert_eq!(
        negotiation.on_signal(PeerSignal::Offer(text("offer"))),
        NegotiationStep::ApplyOffer(text("offer"))
    );
    assert!(negotiation.is_holding());
    assert_eq!(negotiation.on_applied(true), NegotiationStep::MakeAnswer);
    assert_eq!(
        negotiation.on_answer(Some(text("answer"))),
        NegotiationStep::ApplyAnswer(text("answer"))
    );
    assert_eq!(negotiation.on_applied(true), NegotiationStep::SendAnswer(text("answer")));
    assert!(!negotiation.is_holding());
}

#[test]
fn a_refused_offer_is_not_answered() {
    let mut negotiation = Negotiation::new();
    negotiation.on_signal(PeerSignal::Offer(text("offer")));
    assert_eq!(negotiation.on_applied(false), NegotiationStep::Next);
    assert!(!negotiation.is_holding());
    negotiation.on_signal(PeerSignal::IceCandidate(text("bad")));
    assert_eq!(negotiation.on_applied(false), NegotiationStep::CountDiscarded);
}

#[test]
fn an_offer_is_sent_once_it_is_applied_here() {
    let mut offering = Offering::new();
    assert_eq!(offering.on_made(Some(text("offer"))), Some(text("offer")));
    assert_eq!(offering.on_applied(true), Some(PeerSignal::Offer(text("offer"))));
    let mut failed = Offering::new();
    assert_eq!(failed.on_made(None), None);
}

fn record(id: &str, kind: &str) -> StatsRecord {
    StatsRecord {
        id: Some(text(id)),
        kind: Some(text(kind)),
        nominated: false,
        state: None,
        local_candidate: None,
        remote_candidate: None,
        candidate_type: None,
    }
}

#[test]
fn the_winning_pair_decides_the_route() {
    let candidate = |id: &str, kind: &str, of: &str| StatsRecord {
        candidate_type: Some(text(of)),
        ..record(id, kind)
    };
    let pair = |state: &str, remote: &str| StatsRecord {
        state: Some(text(state)),
        local_candidate: Some(text("L")),
        remote_candidate: Some(text(remote)),
        ..record("P", "candidate-pair")
    };
    let local = || candidate("L", "local-candidate", "host");
    let relay = || candidate("R", "remote-candidate", "relay");
    let host = || candidate("H", "remote-candidate", "host");
    assert_eq!(
        selected_route(&vec![local(), relay(), host(), pair("succeeded", "R")]),
        Some(PeerRoute::Relayed)
    );
    assert_eq!(
        selected_route(&vec![local(), relay(), host(), pair("succeeded", "H")]),
        Some(PeerRoute::Direct)
    );
    assert_eq!(selected_route(&vec![local(), relay(), pair("waiting", "R")]), None);
}

#[test]
fn a_signal_is_addressed_to_a_peer() {
    let outgoing = OutgoingSignal { peer: 3, signal: PeerSignal::Answer(text("sdp")) };
    assert_eq!(outgoing.peer, 3);
    assert_ne!(Role::Offerer, Role::Answerer);
}
