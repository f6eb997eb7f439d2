//! The restart policy, and how a socket hears of it.

use ensemble::sockets::recovery::{
    recover, IceReaction, IceState, Recover, Recovery, Role, MAX_ICE_RESTARTS,
};
use ensemble::sockets::socket::PeerState;

#[test]
fn a_path_that_never_existed_is_not_restored() {
    let mut offerer = Recovery::new(Role::Offerer);
    assert_eq!(offerer.ice_lost(true), Recover::GiveUp);
    assert_eq!(offerer.ice_lost(false), Recover::GiveUp);
    let mut answerer = Recovery::new(Role::Answerer);
    assert_eq!(answerer.ice_lost(false), Recover::GiveUp);
}

#[test]
fn the_offerer_restarts_a_bounded_number_of_times() {
    let mut offerer = Recovery::new(Role::Offerer);
    assert!(!offerer.ice_connected());
    for attempt in 1..=MAX_ICE_RESTARTS {
        assert_eq!(offerer.ice_lost(false), Recover::Restart { attempt });
        assert!(offerer.in_progress());
        assert!(
            offerer.ice_connected(),
            "a restart that worked ends the recovery"
        );
        assert!(!offerer.in_progress());
    }
    assert_eq!(offerer.ice_lost(true), Recover::GiveUp);
    assert_eq!(offerer.request_restart(), Recover::GiveUp);
}

#[test]
fn a_failed_restart_is_followed_by_another_while_the_budget_lasts() {
    let mut offerer = Recovery::new(Role::Offerer);
    offerer.ice_connected();
    assert_eq!(offerer.ice_lost(false), Recover::Restart { attempt: 1 });
    // The restart's own checks found nothing: ICE reports `Failed` without a `Connected` in
    // between. Try again rather than reporting a loss the budget could still cover.
    assert_eq!(offerer.ice_lost(true), Recover::Restart { attempt: 2 });
    assert!(offerer.in_progress());
}

#[test]
fn the_answerer_waits_on_disconnected_and_gives_up_on_failed() {
    let mut answerer = Recovery::new(Role::Answerer);
    answerer.ice_connected();
    assert_eq!(answerer.ice_lost(false), Recover::Wait);
    assert!(answerer.in_progress());
    assert!(answerer.ice_connected());
    assert_eq!(answerer.ice_lost(true), Recover::GiveUp);
}

#[test]
fn a_recovery_is_over_once_it_was_given_up() {
    let mut answerer = Recovery::new(Role::Answerer);
    answerer.ice_connected();
    assert_eq!(answerer.ice_lost(false), Recover::Wait);
    assert_eq!(answerer.ice_lost(true), Recover::GiveUp);
    assert!(!answerer.in_progress());
    assert_eq!(answerer.on_connection_failed(), Some(PeerState::Failed));

    let mut offerer = Recovery::new(Role::Offerer);
    offerer.ice_connected();
    for attempt in 1..=MAX_ICE_RESTARTS {
        assert_eq!(offerer.ice_lost(true), Recover::Restart { attempt });
        assert!(offerer.in_progress());
        assert_eq!(offerer.on_connection_failed(), None, "a restart is under way");
    }
    assert_eq!(offerer.ice_lost(true), Recover::GiveUp);
    assert!(!offerer.in_progress());
    assert!(!offerer.ice_connected(), "nothing is left to be restored");
}

#[test]
fn only_the_offerer_restarts_on_request() {
    let mut answerer = Recovery::new(Role::Answerer);
    answerer.ice_connected();
    assert_eq!(answerer.restart_ice(), None);
    let mut offerer = Recovery::new(Role::Offerer);
    offerer.ice_connected();
    assert_eq!(offerer.restart_ice(), Some(Recover::Restart { attempt: 1 }));
    assert_eq!(offerer.role(), Role::Offerer);
}

#[test]
fn a_lost_path_is_reported_and_restarted() {
    let mut offerer = Recovery::new(Role::Offerer);
    offerer.on_ice_state(IceState::Connected);
    let reaction = offerer.on_ice_state(IceState::Disconnected);
    assert_eq!(reaction.report, Some(PeerState::Reconnecting));
    assert!(reaction.restart);
    let reaction = offerer.on_ice_state(IceState::Connected);
    assert_eq!(reaction.report, Some(PeerState::Connected));
    assert!(!reaction.restart);
}

#[test]
fn giving_up_is_a_failure_and_waiting_is_not() {
    let given_up: IceReaction = recover(Recover::GiveUp);
    assert_eq!(given_up.report, Some(PeerState::Failed));
    let waiting = recover(Recover::Wait);
    assert_eq!(waiting.report, Some(PeerState::Reconnecting));
    assert!(!waiting.restart);
}
