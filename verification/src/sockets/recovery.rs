//! What to do when ICE loses the path to a peer, decided the same way on every platform.
//!
//! The backends differ in how they *ask* for a restart and in nothing else: who restarts, how many
//! times, and when a lost path is a lost session are policy, and policy that lives in two places
//! drifts. So it lives here, as a small state machine with no I/O, and each backend asks it what
//! to do.

use vstd::prelude::*;

use super::socket::PeerState;

verus! {

/// How many ICE restarts one connection may make, requested ones included, before a lost path is
/// reported [`Failed`](PeerState::Failed) instead.
///
/// Bounded because a restart that keeps being needed is a path that keeps going away, and a
/// connection that spends the session reconnecting is worse to play against than one that ends.
pub const MAX_ICE_RESTARTS: u32 = 3;

/// Which side of the offer/answer exchange a peer connection is on.
///
/// It decides who restarts ICE. Only the offerer can: an ICE restart is a new offer, and in this
/// protocol the answerer's offers are refused. The answerer notices the loss the same way and
/// reports it the same way; it just waits for the offer instead of making one.
#[derive(Debug, Clone, Copy, PartialEq, Eq, Structural)]
pub enum Role {
    Offerer,
    Answerer,
}

/// What a backend should do about ICE having lost its path.
#[derive(Debug, Clone, Copy, PartialEq, Eq, Structural)]
pub enum Recover {
    /// Report `Reconnecting`, then send an offer with `ice_restart`. `attempt` counts from one.
    Restart { attempt: u32 },
    /// Report `Reconnecting` and wait: the offerer will notice the same loss and send a restart
    /// offer, which is answered like any other.
    Wait,
    /// Report `Failed`: there is no restart left to try, or nothing to restore.
    GiveUp,
}

/// One peer connection's restart budget and where it stands.
#[derive(Debug, Clone, Copy, PartialEq, Eq)]
pub struct Recovery {
    /// The side of the exchange this connection is on.
    pub role: Role,
    /// Restart offers made so far, requested ones included.
    pub restarts: u32,
    /// Between a loss (or a request) and ICE reporting a path again, or the connection being given
    /// up on.
    pub in_progress: bool,
    /// Whether ICE ever had a path at all.
    ///
    /// A restart restores a path; it cannot invent one. ICE failing on a connection that never
    /// connected means no candidate pair works, and gathering the same candidates again will find
    /// the same thing three more times — slowly, on a screen that is waiting for an answer.
    pub connected_once: bool,
}

/// Where ICE stands, as far as it matters here.
#[derive(Debug, Clone, Copy, PartialEq, Eq, Structural)]
pub enum IceState {
    Connected,
    Completed,
    Disconnected,
    Failed,
    /// New, checking, or closed.
    Other,
}

/// What a backend does about ICE: what it reports, and whether it makes a restart offer.
#[derive(Debug, Clone, Copy, PartialEq, Eq, Structural)]
pub struct IceReaction {
    pub report: Option<PeerState>,
    pub restart: bool,
}

impl Recovery {
    /// The recovery once the connection was given up on: none is under way.
    pub open spec fn given_up(self) -> Recovery {
        Recovery { in_progress: false, ..self }
    }

    /// The recovery once a restart was asked for.
    pub open spec fn after_request(self) -> Recovery {
        if self.restarts >= MAX_ICE_RESTARTS {
            self.given_up()
        } else {
            Recovery { restarts: (self.restarts + 1) as u32, in_progress: true, ..self }
        }
    }

    /// What is done about a restart that is asked for.
    pub open spec fn on_request(self) -> Recover {
        if self.restarts >= MAX_ICE_RESTARTS {
            Recover::GiveUp
        } else {
            Recover::Restart { attempt: (self.restarts + 1) as u32 }
        }
    }

    /// The recovery once ICE lost its path.
    pub open spec fn after_loss(self, failed: bool) -> Recovery {
        if !self.connected_once {
            self.given_up()
        } else {
            match self.role {
                Role::Answerer => if failed {
                    self.given_up()
                } else {
                    Recovery { in_progress: true, ..self }
                },
                Role::Offerer => self.after_request(),
            }
        }
    }

    /// What is done about ICE losing its path.
    pub open spec fn on_loss(self, failed: bool) -> Recover {
        if !self.connected_once {
            Recover::GiveUp
        } else {
            match self.role {
                Role::Answerer => if failed {
                    Recover::GiveUp
                } else {
                    Recover::Wait
                },
                Role::Offerer => self.on_request(),
            }
        }
    }

    /// The recovery once ICE has a path.
    pub open spec fn after_path(self) -> Recovery {
        Recovery { connected_once: true, in_progress: false, ..self }
    }

    /// The recovery once ICE changed state, and what is done about it.
    pub open spec fn on_state(self, state: IceState) -> (Recovery, IceReaction) {
        match state {
            IceState::Connected | IceState::Completed => (
                self.after_path(),
                IceReaction {
                    report: if self.in_progress {
                        Some(PeerState::Connected)
                    } else {
                        None
                    },
                    restart: false,
                },
            ),
            IceState::Disconnected | IceState::Failed => (
                self.after_loss(state == IceState::Failed),
                reaction_to(self.on_loss(state == IceState::Failed)),
            ),
            IceState::Other => (self, IceReaction { report: None, restart: false }),
        }
    }

    /// The recovery once someone asked for a restart, and what is done about it.
    pub open spec fn asked(self) -> (Recovery, Option<Recover>) {
        match self.role {
            Role::Answerer => (self, None),
            Role::Offerer => (self.after_request(), Some(self.on_request())),
        }
    }

    /// What is reported when the connection as a whole failed.
    pub open spec fn failure_report(self) -> Option<PeerState> {
        if self.in_progress {
            None
        } else {
            Some(PeerState::Failed)
        }
    }

    pub fn new(role: Role) -> (recovery: Self)
        ensures
            recovery == (Recovery {
                role,
                restarts: 0,
                in_progress: false,
                connected_once: false,
            }),
    {
        Recovery { role, restarts: 0, in_progress: false, connected_once: false }
    }

    pub fn role(&self) -> (role: Role)
        ensures
            role == self.role,
    {
        self.role
    }

    /// Whether a recovery is under way, i.e. `Reconnecting` has been reported and neither
    /// `Connected` nor `Failed` has followed it yet.
    pub fn in_progress(&self) -> (under_way: bool)
        ensures
            under_way == self.in_progress,
    {
        self.in_progress
    }

    /// ICE reported `Disconnected` (`failed == false`) or `Failed` (`failed == true`).
    pub fn ice_lost(&mut self, failed: bool) -> (decision: Recover)
        ensures
            decision == old(self).on_loss(failed),
            *final(self) == old(self).after_loss(failed),
    {
        if !self.connected_once {
            self.in_progress = false;
            return Recover::GiveUp;
        }
        match self.role {
            // `Failed` on the answerer is final. Either the offerer's restart already ran and
            // found nothing, or ICE gave up before a restart offer arrived — and the answerer
            // cannot make one itself.
            Role::Answerer => {
                if failed {
                    self.in_progress = false;
                    Recover::GiveUp
                } else {
                    self.in_progress = true;
                    Recover::Wait
                }
            },
            Role::Offerer => self.request_restart(),
        }
    }

    /// A restart asked for explicitly, or by a lost path on the offerer.
    ///
    /// Counted against [`MAX_ICE_RESTARTS`] either way: a "reconnect" button that can be pressed
    /// for ever on a path that is gone is a button that lies.
    pub fn request_restart(&mut self) -> (decision: Recover)
        requires
            old(self).role == Role::Offerer,
        ensures
            decision == old(self).on_request(),
            *final(self) == old(self).after_request(),
    {
        if self.restarts >= MAX_ICE_RESTARTS {
            self.in_progress = false;
            return Recover::GiveUp;
        }
        self.restarts = self.restarts + 1;
        self.in_progress = true;
        Recover::Restart { attempt: self.restarts }
    }

    /// ICE reported `Connected` or `Completed`. `true` when that ends a recovery, in which case
    /// the backend reports `Connected` — the data channel never closed, so its opening will not
    /// say so.
    pub fn ice_connected(&mut self) -> (restored: bool)
        ensures
            restored == old(self).in_progress,
            *final(self) == old(self).after_path(),
    {
        self.connected_once = true;
        let restored = self.in_progress;
        self.in_progress = false;
        restored
    }

    /// Someone asks for a restart. `None` on the answerer, which cannot make one: the offerer will,
    /// when its ICE notices the loss.
    pub fn restart_ice(&mut self) -> (decision: Option<Recover>)
        ensures
            (*final(self), decision) == old(self).asked(),
    {
        match self.role {
            Role::Answerer => None,
            Role::Offerer => Some(self.request_restart()),
        }
    }

    /// ICE changed state. `Connected` and `Completed` end a recovery if one is under way;
    /// `Disconnected` and `Failed` start one, or give up, as the policy says.
    pub fn on_ice_state(&mut self, state: IceState) -> (reaction: IceReaction)
        ensures
            (*final(self), reaction) == old(self).on_state(state),
    {
        match state {
            IceState::Connected | IceState::Completed => {
                if self.ice_connected() {
                    IceReaction { report: Some(PeerState::Connected), restart: false }
                } else {
                    IceReaction { report: None, restart: false }
                }
            },
            IceState::Disconnected => recover(self.ice_lost(false)),
            IceState::Failed => recover(self.ice_lost(true)),
            IceState::Other => IceReaction { report: None, restart: false },
        }
    }

    /// The connection as a whole failed. That follows the ICE failure that starts a restart, and
    /// reporting it would end a recovery that has restarts left; so it is reported only while no
    /// recovery is under way.
    pub fn on_connection_failed(&self) -> (report: Option<PeerState>)
        ensures
            report == self.failure_report(),
    {
        if self.in_progress {
            None
        } else {
            Some(PeerState::Failed)
        }
    }
}

/// What a backend does about a decision.
pub open spec fn reaction_to(decision: Recover) -> IceReaction {
    match decision {
        Recover::GiveUp => IceReaction { report: Some(PeerState::Failed), restart: false },
        Recover::Wait => IceReaction { report: Some(PeerState::Reconnecting), restart: false },
        Recover::Restart { .. } => IceReaction {
            report: Some(PeerState::Reconnecting),
            restart: true,
        },
    }
}

/// What a backend does about a decision: what it reports, and whether it is this side's to make a
/// restart offer.
pub fn recover(decision: Recover) -> (reaction: IceReaction)
    ensures
        reaction == reaction_to(decision),
{
    match decision {
        Recover::GiveUp => IceReaction { report: Some(PeerState::Failed), restart: false },
        Recover::Wait => IceReaction { report: Some(PeerState::Reconnecting), restart: false },
        Recover::Restart { .. } => IceReaction {
            report: Some(PeerState::Reconnecting),
            restart: true,
        },
    }
}

/// Something that happens to a connection's path.
pub enum PathEvent {
    Lost { failed: bool },
    Found,
    /// Someone asks for a restart. The answerer ignores it.
    Requested,
}

/// The recovery once something happened to the path.
pub open spec fn after_event(recovery: Recovery, event: PathEvent) -> Recovery {
    match event {
        PathEvent::Lost { failed } => recovery.after_loss(failed),
        PathEvent::Found => recovery.after_path(),
        PathEvent::Requested => if recovery.role == Role::Offerer {
            recovery.after_request()
        } else {
            recovery
        },
    }
}

/// Whether a restart is made about what happened.
pub open spec fn restarts_on(recovery: Recovery, event: PathEvent) -> bool {
    match event {
        PathEvent::Lost { failed } => recovery.on_loss(failed) is Restart,
        PathEvent::Found => false,
        PathEvent::Requested => recovery.role == Role::Offerer && recovery.on_request() is Restart,
    }
}

/// How many restarts are made over everything that happens.
pub open spec fn restarts_made(recovery: Recovery, events: Seq<PathEvent>) -> int
    decreases events.len(),
{
    if events.len() == 0 {
        0
    } else {
        (if restarts_on(recovery, events[0]) {
            1int
        } else {
            0int
        }) + restarts_made(after_event(recovery, events[0]), events.drop_first())
    }
}

/// Whatever happens, a connection restarts no more often than its budget allows.
pub proof fn law_restarts_are_bounded(role: Role, events: Seq<PathEvent>)
    ensures
        restarts_made(
            Recovery { role, restarts: 0, in_progress: false, connected_once: false },
            events,
        ) <= MAX_ICE_RESTARTS,
{
    lemma_restarts_left(
        Recovery { role, restarts: 0, in_progress: false, connected_once: false },
        events,
    );
}

proof fn lemma_restarts_left(recovery: Recovery, events: Seq<PathEvent>)
    requires
        recovery.restarts <= MAX_ICE_RESTARTS,
    ensures
        restarts_made(recovery, events) <= MAX_ICE_RESTARTS - recovery.restarts,
    decreases events.len(),
{
    if events.len() > 0 {
        lemma_restarts_left(after_event(recovery, events[0]), events.drop_first());
    }
}

/// The answerer never restarts.
pub proof fn law_answerer_never_restarts(recovery: Recovery, events: Seq<PathEvent>)
    requires
        recovery.role == Role::Answerer,
    ensures
        restarts_made(recovery, events) == 0,
    decreases events.len(),
{
    if events.len() > 0 {
        law_answerer_never_restarts(after_event(recovery, events[0]), events.drop_first());
    }
}

/// A path that never existed is given up at once, and nothing else comes of losing it.
pub proof fn law_unknown_path_is_given_up(recovery: Recovery, failed: bool)
    requires
        !recovery.connected_once,
    ensures
        recovery.on_loss(failed) == Recover::GiveUp,
        recovery.after_loss(failed) == recovery.given_up(),
{
}

/// A recovery is under way from when `Reconnecting` is reported until `Connected` or `Failed` is:
/// whatever is done about a lost path or a request, it is under way afterwards exactly if what is
/// reported is `Reconnecting`, and none is once there is a path.
pub proof fn law_under_way_while_reconnecting(recovery: Recovery, failed: bool)
    ensures
        recovery.after_loss(failed).in_progress == (reaction_to(recovery.on_loss(failed)).report
            == Some(PeerState::Reconnecting)),
        recovery.after_request().in_progress == (reaction_to(recovery.on_request()).report == Some(
            PeerState::Reconnecting,
        )),
        !recovery.after_path().in_progress,
{
}

} // verus!
