//! What a connection comes to: which signals are acted on, what is heard of a peer, how long a
//! restart may take, and who makes one.

use vstd::prelude::*;

use super::candidates;
use super::candidates::{GateEvent, GateView};
use super::negotiation::{Negotiation, NegotiationStep};
use super::recovery;
use super::recovery::{IceState, Recover, Recovery, Role};
use super::signal::PeerSignal;
use super::socket::{PeerChange, PeerState, RouteChange, SignalAction, SocketView};

verus! {

/// An offer from a stranger opens a connection on which this side answers; anything else from a
/// stranger comes to nothing. Nobody else's connection is touched.
pub proof fn law_only_an_offer_opens_a_connection(
    socket: SocketView,
    sender: u128,
    signal: PeerSignal,
)
    requires
        !socket.peers.contains_key(sender),
    ensures
        ({
            let (after, action) = socket.received(sender, signal);
            match signal {
                PeerSignal::Offer(sdp) => {
                    &&& action == SignalAction::Open(sdp)
                    &&& after == (SocketView {
                        peers: socket.peers.insert(sender, Role::Answerer),
                        ..socket
                    })
                },
                _ => action == SignalAction::NoConnection && after == socket,
            }
        }),
{
}

/// On a connection that exists every signal is applied, a second offer too, but for an offer on
/// one that this side offered itself: of two that offer to each other, neither gives way. The
/// connections stay what they are.
pub proof fn law_an_offerer_takes_no_offers(socket: SocketView, sender: u128, signal: PeerSignal)
    requires
        socket.peers.contains_key(sender),
    ensures
        ({
            let (after, action) = socket.received(sender, signal);
            &&& after == socket
            &&& (action == SignalAction::RefuseGlare) == (signal is Offer && socket.peers[sender]
                == Role::Offerer)
            &&& action == SignalAction::RefuseGlare || action == SignalAction::Apply(signal)
        }),
{
}

/// What a connection says of its peer is passed on when it changes anything for a listener: that
/// it is connected, unless that was heard last; that it is reconnecting or disconnected, if its
/// channels were open; that it failed; and that it is connecting, if nothing was heard before.
/// After a failure nothing is.
pub proof fn law_what_matters_is_heard(socket: SocketView, change: PeerChange, now: u64)
    ensures
        ({
            let peer = change.peer;
            let known = socket.states.contains_key(peer);
            let last = socket.states[peer];
            let open = known && (last == PeerState::Connected || last == PeerState::Reconnecting);
            let heard = socket.news(seq![change], now);
            let after = socket.all_told(seq![change], now);
            &&& heard == seq![change] || heard.len() == 0
            &&& heard.len() == 1 <==> match change.state {
                PeerState::Connecting => !known,
                PeerState::Connected => !known || last == PeerState::Connecting || last
                    == PeerState::Reconnecting || last == PeerState::Disconnected,
                PeerState::Reconnecting => open && last != PeerState::Reconnecting,
                PeerState::Disconnected => open,
                PeerState::Failed => !known || last != PeerState::Failed,
            }
            &&& after.states == if heard.len() == 1 {
                socket.states.insert(peer, change.state)
            } else {
                socket.states
            }
            &&& after.peers == socket.peers && after.routes == socket.routes
        }),
{
    reveal_with_fuel(SocketView::news, 2);
    reveal_with_fuel(SocketView::all_told, 2);
    assert(seq![change].drop_last() =~= Seq::<PeerChange>::empty());
    assert(Seq::<PeerChange>::empty().push(change) =~= seq![change]);
}

/// What is said in turn is heard in turn: being told some and then the rest is being told it all.
pub proof fn law_peers_are_heard_in_turn(
    socket: SocketView,
    first: Seq<PeerChange>,
    rest: Seq<PeerChange>,
    now: u64,
)
    ensures
        ({
            let between = socket.all_told(first, now);
            &&& socket.all_told(first + rest, now) == between.all_told(rest, now)
            &&& socket.news(first + rest, now) == socket.news(first, now) + between.news(rest, now)
        }),
    decreases rest.len(),
{
    if rest.len() == 0 {
        assert(first + rest =~= first);
        assert(socket.news(first, now) + Seq::<PeerChange>::empty() =~= socket.news(first, now));
    } else {
        assert((first + rest).drop_last() =~= first + rest.drop_last());
        assert((first + rest).last() == rest.last());
        law_peers_are_heard_in_turn(socket, first, rest.drop_last(), now);
        assert(socket.news(first + rest, now) =~= socket.news(first, now) + socket.all_told(
            first,
            now,
        ).news(rest, now));
    }
}

/// A restart has fifteen seconds, counted from when the loss was first said: saying it again gives
/// no more time. A connection that is found again, or is over, has no deadline, and a later loss
/// starts a new one. Nobody else's deadline moves.
pub proof fn law_a_restart_has_fifteen_seconds(
    socket: SocketView,
    change: PeerChange,
    now: u64,
    other: u128,
)
    ensures
        ({
            let after = socket.all_told(seq![change], now);
            let peer = change.peer;
            let running = socket.reconnecting_since.contains_key(peer);
            let runs = after.reconnecting_since.contains_key(peer);
            &&& change.state == PeerState::Reconnecting ==> {
                &&& runs
                &&& after.reconnecting_since[peer] == if running {
                    socket.reconnecting_since[peer]
                } else {
                    now
                }
            }
            &&& change.state == PeerState::Connected || change.state == PeerState::Disconnected
                || change.state == PeerState::Failed ==> !runs
            &&& change.state == PeerState::Connecting ==> after.reconnecting_since
                == socket.reconnecting_since
            &&& other != peer ==> {
                &&& after.reconnecting_since.contains_key(other)
                    == socket.reconnecting_since.contains_key(other)
                &&& after.reconnecting_since[other] == socket.reconnecting_since[other]
            }
        }),
{
    reveal_with_fuel(SocketView::all_told, 2);
    assert(seq![change].drop_last() =~= Seq::<PeerChange>::empty());
}

/// A peer is given up on exactly when its restart has taken fifteen seconds and it has not failed
/// already; it has failed from then on, with no deadline left, and everybody else stays as they
/// were.
pub proof fn law_a_late_restart_has_failed(
    socket: SocketView,
    gone: Seq<u128>,
    after: SocketView,
    now: u64,
    peer: u128,
)
    requires
        socket.gives_up_on(gone, after, now),
    ensures
        ({
            let late = socket.reconnecting_since.contains_key(peer) && now
                - socket.reconnecting_since[peer] >= 15_000_000_000;
            let failed = socket.states.contains_key(peer) && socket.states[peer]
                == PeerState::Failed;
            &&& gone.contains(peer) == (late && !failed)
            &&& late ==> {
                &&& after.states.contains_key(peer) && after.states[peer] == PeerState::Failed
                &&& !after.reconnecting_since.contains_key(peer)
            }
            &&& !late ==> {
                &&& after.states.contains_key(peer) == socket.states.contains_key(peer)
                &&& socket.states.contains_key(peer) ==> after.states[peer] == socket.states[peer]
                &&& after.reconnecting_since.contains_key(peer)
                    == socket.reconnecting_since.contains_key(peer)
                &&& socket.reconnecting_since.contains_key(peer) ==> after.reconnecting_since[peer]
                    == socket.reconnecting_since[peer]
            }
            &&& after.peers == socket.peers && after.routes == socket.routes
        }),
{
    assert(gone.contains(peer) <==> socket.is_given_up(peer, now));
    assert(after.state_of(peer) == if gone.contains(peer) {
        Some(PeerState::Failed)
    } else {
        socket.state_of(peer)
    });
    assert(after.reconnecting_since.dom().contains(peer) <==> {
        &&& socket.reconnecting_since.dom().contains(peer)
        &&& !socket.is_late(peer, now)
    });
}

/// A route is reported when it differs from the one that is known, and is known from then on;
/// nobody else's changes. Routes are reported in turn.
pub proof fn law_a_new_route_is_reported(
    socket: SocketView,
    first: Seq<RouteChange>,
    change: RouteChange,
)
    ensures
        ({
            let between = socket.all_routed(first);
            let after = socket.all_routed(first.push(change));
            let known = between.routes.contains_key(change.peer) && between.routes[change.peer]
                == change.route;
            &&& socket.all_routed(Seq::empty()) == socket
            &&& socket.new_routes(Seq::empty()).len() == 0
            &&& after == (SocketView {
                routes: between.routes.insert(change.peer, change.route),
                ..between
            })
            &&& socket.new_routes(first.push(change)) == if known {
                socket.new_routes(first)
            } else {
                socket.new_routes(first).push(change)
            }
        }),
{
    assert(first.push(change).drop_last() =~= first);
}

/// A path that was never there is not restored. One that was is restored by the side that offered,
/// up to three times, each one counted, and given up on after that; the other side waits, until
/// ICE has failed.
pub proof fn law_a_lost_path_is_restored_three_times(recovery: Recovery, failed: bool)
    ensures
        ({
            let decision = recovery.on_loss(failed);
            let after = recovery.after_loss(failed);
            let restarts = recovery.connected_once && recovery.role == Role::Offerer
                && recovery.restarts < 3;
            let waits = recovery.connected_once && recovery.role == Role::Answerer && !failed;
            &&& decision is Restart == restarts
            &&& restarts ==> decision->attempt == recovery.restarts + 1 && after.restarts
                == recovery.restarts + 1
            &&& decision is Wait == waits
            &&& !restarts ==> after.restarts == recovery.restarts
            &&& after.in_progress == (restarts || waits)
            &&& after.role == recovery.role && after.connected_once == recovery.connected_once
        }),
{
}

/// A restart that is asked for is made while there is one left of the three, and counts.
pub proof fn law_a_request_is_a_restart(recovery: Recovery)
    ensures
        ({
            let decision = recovery.on_request();
            let after = recovery.after_request();
            &&& recovery.restarts < 3 ==> {
                &&& decision is Restart
                &&& decision->attempt == recovery.restarts + 1 == after.restarts
                &&& after.in_progress
            }
            &&& recovery.restarts >= 3 ==> {
                &&& decision is GiveUp
                &&& after.restarts == recovery.restarts
                &&& !after.in_progress
            }
            &&& after.role == recovery.role && after.connected_once == recovery.connected_once
        }),
{
}

/// A path that is found is known of, and ends what recovery was under way; it gives no restart
/// back. The peer is failed when its path is given up on, and reconnecting else, and an offer is
/// made exactly for a restart.
pub proof fn law_a_found_path_ends_the_recovery(recovery: Recovery, decision: Recover)
    ensures
        ({
            let after = recovery.after_path();
            let reaction = recovery::reaction_to(decision);
            &&& after.connected_once && !after.in_progress
            &&& after.restarts == recovery.restarts && after.role == recovery.role
            &&& reaction.restart == (decision is Restart)
            &&& reaction.report == Some(
                if decision is GiveUp {
                    PeerState::Failed
                } else {
                    PeerState::Reconnecting
                },
            )
        }),
{
}

/// A peer's answer, or one of its candidates, is applied as it is, and the next signal can be
/// taken whether it was or not; this side's candidates are not held back for it. Only a candidate
/// that is refused is counted.
pub proof fn law_what_follows_an_offer_is_applied(signal: PeerSignal, ok: bool)
    requires
        signal !is Offer,
    ensures
        ({
            let (taken, step) = Negotiation::Idle.signalled(signal);
            let (after, next) = taken.applied(ok);
            &&& match signal {
                PeerSignal::IceCandidate(candidate) => step == NegotiationStep::ApplyCandidate(
                    candidate,
                ),
                PeerSignal::Answer(sdp) => step == NegotiationStep::ApplyRemoteAnswer(sdp),
                PeerSignal::Offer(_) => true,
            }
            &&& !taken.holds()
            &&& after is Idle && !after.holds()
            &&& next == if signal is IceCandidate && !ok {
                NegotiationStep::CountDiscarded
            } else {
                NegotiationStep::Next
            }
        }),
{
}

/// A candidate goes out at once while no description is being made, and waits behind the others
/// while one is; when the last description is sent, all that waited go out, in order, and none
/// waits any longer.
pub proof fn law_candidates_wait_for_the_last_description(gate: GateView, candidate: Seq<char>)
    ensures
        ({
            let gathered = GateEvent::Gathered(candidate);
            let held = candidates::gate_after(gate, gathered);
            let sent = candidates::sent_on(gate, gathered);
            &&& gate.holds == 0 ==> sent == seq![candidate] && held == gate
            &&& gate.holds > 0 ==> sent.len() == 0 && held.held == gate.held.push(candidate)
                && held.holds == gate.holds
        }),
        gate.holds > 0 ==> ({
            let after = candidates::gate_after(gate, GateEvent::Release);
            let sent = candidates::sent_on(gate, GateEvent::Release);
            &&& after.holds == gate.holds - 1
            &&& gate.holds == 1 ==> sent == gate.held && after.held.len() == 0
            &&& gate.holds > 1 ==> sent.len() == 0 && after.held == gate.held
        }),
        gate.holds < u32::MAX ==> ({
            let after = candidates::gate_after(gate, GateEvent::Hold);
            &&& after.holds == gate.holds + 1
            &&& after.held == gate.held
            &&& candidates::sent_on(gate, GateEvent::Hold).len() == 0
        }),
{
}

/// A path that ICE has, or has completed, ends what recovery is under way, which is the only time
/// that it is reported. A path that is lost is reported as reconnecting while it is being restored,
/// and as failed when it is not; an offer is made exactly when a restart is counted. Any other
/// change of ICE means nothing.
pub proof fn law_ice_is_heard(recovery: Recovery, state: IceState)
    ensures
        ({
            let (after, reaction) = recovery.on_state(state);
            let found = state == IceState::Connected || state == IceState::Completed;
            let lost = state == IceState::Disconnected || state == IceState::Failed;
            let offerer = recovery.role == Role::Offerer;
            let restored = recovery.connected_once && if offerer {
                recovery.restarts < 3
            } else {
                state == IceState::Disconnected
            };
            &&& found ==> after.connected_once && !after.in_progress && !reaction.restart
            &&& found ==> reaction.report == if recovery.in_progress {
                Some(PeerState::Connected)
            } else {
                None
            }
            &&& lost ==> after.in_progress == restored && reaction.restart == (restored && offerer)
            &&& lost ==> reaction.report == Some(
                if restored {
                    PeerState::Reconnecting
                } else {
                    PeerState::Failed
                },
            )
            &&& after.restarts == recovery.restarts + if reaction.restart {
                1int
            } else {
                0int
            }
            &&& !found && !lost ==> after == recovery && reaction.report is None
                && !reaction.restart
        }),
{
}

/// Only the side that offered restarts when it is asked to, as long as it may; the other side does
/// nothing. A connection that failed as a whole is reported unless it is being restored.
pub proof fn law_only_the_offerer_is_asked(recovery: Recovery)
    ensures
        ({
            let (after, decision) = recovery.asked();
            let restarts = recovery.role == Role::Offerer && recovery.restarts < 3;
            &&& decision is None == (recovery.role == Role::Answerer)
            &&& decision is None ==> after == recovery
            &&& (decision is Some && decision->0 is Restart) == restarts
            &&& (decision is Some && decision->0 is GiveUp) == (recovery.role == Role::Offerer
                && !restarts)
            &&& decision is Some ==> after.in_progress == restarts
            &&& after.restarts == recovery.restarts + if restarts {
                1int
            } else {
                0int
            }
        }),
        recovery.failure_report() is Some == !recovery.in_progress,
        recovery.failure_report() is Some ==> recovery.failure_report()->0 == PeerState::Failed,
{
}

/// A peer is offered to once: connecting opens a connection on which this side offers, to nobody
/// twice. Letting go of a peer forgets all of it, and it can be connected to again; nobody else is
/// concerned.
pub proof fn law_a_connection_is_opened_once(socket: SocketView, peer: u128, other: u128)
    ensures
        ({
            let (after, opened) = socket.offered(peer);
            let (gone, closed) = after.let_go(peer);
            &&& opened == !socket.peers.contains_key(peer)
            &&& opened ==> after.peers[peer] == Role::Offerer
            &&& after.peers.contains_key(peer)
            &&& after.offered(peer) == (after, false)
            &&& after == (SocketView { peers: after.peers, ..socket })
            &&& other != peer ==> after.peers.contains_key(other) == socket.peers.contains_key(
                other,
            ) && after.peers[other] == socket.peers[other]
            &&& closed
            &&& !gone.peers.contains_key(peer) && !gone.states.contains_key(peer)
            &&& !gone.routes.contains_key(peer) && !gone.reconnecting_since.contains_key(peer)
            &&& gone.let_go(peer) == (gone, false)
            &&& gone.ice_servers == socket.ice_servers
            &&& other != peer ==> {
                &&& gone.peers.contains_key(other) == socket.peers.contains_key(other)
                &&& gone.states.contains_key(other) == socket.states.contains_key(other)
                &&& gone.routes.contains_key(other) == socket.routes.contains_key(other)
                &&& gone.reconnecting_since.contains_key(other)
                    == socket.reconnecting_since.contains_key(other)
            }
        }),
{
}

/// The channels of a peer are open while it is connected, and while it reconnects too.
pub proof fn law_a_reconnecting_peer_is_still_open(socket: SocketView, peer: u128)
    ensures
        socket.is_open(peer) == (socket.states.contains_key(peer) && match socket.states[peer] {
            PeerState::Connected | PeerState::Reconnecting => true,
            _ => false,
        }),
{
}

} // verus!
