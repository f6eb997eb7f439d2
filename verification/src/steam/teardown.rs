//! What is to be done to a session over Steam, and how one ends.

use vstd::prelude::*;

use super::world::{LobbyId, SteamId, SteamLobby};
use crate::text;
use crate::text::decimal;

verus! {

/// Why a lobby was left without this peer asking to.
#[derive(Debug, Clone, Copy, PartialEq, Eq, Structural)]
pub enum LobbyLeftReason {
    /// The host removed this peer.
    Kicked,
    /// The host is gone, or closed the lobby.
    HostGone,
    /// Steam was lost.
    SignallingLost,
}

/// Why an attempt to host or to join a lobby came to nothing.
#[derive(Debug, PartialEq, Eq)]
pub enum JoinFailure {
    /// Steam could not create the lobby, with this result.
    NotCreated(u32),
    /// Steam refused the join, with this response.
    Refused(String),
    /// The lobby went away before the session opened.
    EndedEarly(LobbyLeftReason),
}

/// One thing to be done to the session or to Steam.
#[derive(Debug, PartialEq, Eq)]
pub enum SteamEffect {
    /// This peer is known as this.
    SetLocalId(u128),
    /// The session's authority is this peer.
    SetHostUuid(u128),
    ForgetHostUuid,
    /// Whose members may open a session from now on.
    SetCurrentLobby(Option<LobbyId>),
    /// The lobby asked for is created: it is active, and survives its host.
    PromoteHosted { entity: u64, lobby_id: LobbyId },
    /// The lobby is entered: it is pinned to this host, and survives it.
    AttachJoined { entity: u64, lobby_id: LobbyId, host: SteamId },
    /// A lobby to be joined is opened.
    SpawnPendingLobby,
    DespawnLobby(u64),
    DespawnSeat(u64),
    /// A pending seat is opened.
    SpawnSeat { lobby: u64, steam_id: SteamId, player_uuid: u128 },
    /// Steam is asked to join the lobby.
    JoinLobby(LobbyId),
    CloseSession(SteamId),
    LeaveLobby(LobbyId),
    /// The lobby's data on Steam gets an entry under
    /// [`CLOSED_LOBBY_KEY`](super::session::CLOSED_LOBBY_KEY): its host closed it.
    MarkClosed(LobbyId),
    /// The client's lobby is pinned to this host from now on.
    PinHost { entity: u64, host: SteamId },
    /// The lobby is pinned to nobody: this peer hosts it.
    UnpinHost(u64),
    /// The session is told of its new host, and of who is in the lobby.
    NewHostNamed { entity: u64, previous: u128, new_host: u128, members: Vec<u128> },
    /// The lobby goes, if it is still there when this is done: see [`end_lobby`].
    EndLobby { entity: u64, promoted: bool, reason: LobbyLeftReason },
    /// The lobby's host is lost, and a successor is waited for.
    HostLost(u64),
    /// Somebody is gone of whom no host could say so.
    ParticipantDeparted { lobby: u64, player_uuid: u128 },
    JoinFailed(JoinFailure),
    LobbyLeft(LobbyLeftReason),
}

/// What is said on screen about a lobby that went away before the session opened.
pub open spec fn early_end_text(reason: LobbyLeftReason) -> Seq<char> {
    match reason {
        LobbyLeftReason::Kicked => "the host removed this player before the session opened"@,
        LobbyLeftReason::HostGone => "the host left before the session opened"@,
        LobbyLeftReason::SignallingLost => "the lobby closed before the session opened"@,
    }
}

impl LobbyLeftReason {
    /// What is said on screen about a lobby that went away for this before the session opened.
    pub fn early_end(self) -> (text: &'static str)
        ensures
            text@ == early_end_text(self),
    {
        match self {
            LobbyLeftReason::Kicked => "the host removed this player before the session opened",
            LobbyLeftReason::HostGone => "the host left before the session opened",
            LobbyLeftReason::SignallingLost => "the lobby closed before the session opened",
        }
    }
}

/// What is said on screen about a failure.
pub open spec fn failure_text(failure: JoinFailure) -> Seq<char> {
    match failure {
        JoinFailure::NotCreated(result) => "Steam could not create the lobby ("@
            + text::decimal_digits(result as nat) + ")"@,
        JoinFailure::Refused(response) => "Steam refused the join: "@ + response@,
        JoinFailure::EndedEarly(reason) => early_end_text(reason),
    }
}

impl JoinFailure {
    /// What is said on screen about this.
    pub fn reason(&self) -> (reason: String)
        ensures
            reason@ == failure_text(*self),
    {
        match self {
            JoinFailure::NotCreated(result) => {
                let mut reason = "Steam could not create the lobby (".to_owned();
                reason.append(decimal(*result as u128).as_str());
                reason.append(")");
                reason
            },
            JoinFailure::Refused(response) => {
                let mut reason = "Steam refused the join: ".to_owned();
                reason.append(response.as_str());
                reason
            },
            JoinFailure::EndedEarly(reason) => reason.early_end().to_owned(),
        }
    }
}

/// A client's lobby torn down: the session first, then the Steam lobby, then the lobby itself.
pub open spec fn torn_down(lobby: SteamLobby, reason: LobbyLeftReason) -> Seq<SteamEffect> {
    seq![
        SteamEffect::CloseSession(lobby.host->0),
        SteamEffect::LeaveLobby(lobby.lobby_id->0),
        SteamEffect::EndLobby { entity: lobby.entity, promoted: !lobby.pending, reason },
    ]
}

/// Tear down a client's lobby that this peer did not choose to leave, and say why.
///
/// The lobby goes, and the reason is said, when this is done: the same session can be ended
/// otherwise in the same frame, and only whichever is done first says so.
pub fn tear_down_client_lobby(
    effects: &mut Vec<SteamEffect>,
    lobby: &SteamLobby,
    reason: LobbyLeftReason,
)
    requires
        lobby.host is Some,
        lobby.lobby_id is Some,
    ensures
        final(effects)@ == old(effects)@ + torn_down(*lobby, reason),
{
    if let Some(host) = lobby.host {
        if let Some(lobby_id) = lobby.lobby_id {
            effects.push(SteamEffect::CloseSession(host));
            effects.push(SteamEffect::LeaveLobby(lobby_id));
            effects.push(
                SteamEffect::EndLobby { entity: lobby.entity, promoted: !lobby.pending, reason },
            );
        }
    }
    assert(effects@ =~= old(effects)@ + torn_down(*lobby, reason));
}

/// What ending a lobby comes to, when it is still `there` or not.
pub open spec fn lobby_ended(
    entity: u64,
    there: bool,
    promoted: bool,
    reason: LobbyLeftReason,
) -> Seq<SteamEffect> {
    if !there {
        Seq::empty()
    } else if promoted {
        seq![SteamEffect::DespawnLobby(entity), SteamEffect::LobbyLeft(reason)]
    } else {
        seq![
            SteamEffect::DespawnLobby(entity),
            SteamEffect::JoinFailed(JoinFailure::EndedEarly(reason)),
        ]
    }
}

/// End a lobby, if it is still there. One that was promoted was a session, which was left; one
/// still pending never opened, so that joining it failed.
pub fn end_lobby(entity: u64, there: bool, promoted: bool, reason: LobbyLeftReason) -> (effects:
    Vec<SteamEffect>)
    ensures
        effects@ == lobby_ended(entity, there, promoted, reason),
{
    let mut effects: Vec<SteamEffect> = Vec::new();
    if there {
        effects.push(SteamEffect::DespawnLobby(entity));
        if promoted {
            effects.push(SteamEffect::LobbyLeft(reason));
        } else {
            effects.push(SteamEffect::JoinFailed(JoinFailure::EndedEarly(reason)));
        }
    }
    assert(effects@ =~= lobby_ended(entity, there, promoted, reason));
    effects
}

/// What is done when a lobby went away, whoever took it away.
pub open spec fn forgotten(
    lobby_id: LobbyId,
    host: Option<SteamId>,
    current_lobby: Option<LobbyId>,
) -> Seq<SteamEffect> {
    (match host {
        Some(host) => seq![SteamEffect::CloseSession(host)],
        None => Seq::empty(),
    }) + seq![SteamEffect::LeaveLobby(lobby_id)] + (if current_lobby == Some(lobby_id) {
        seq![SteamEffect::SetCurrentLobby(None)]
    } else {
        Seq::empty()
    }) + seq![SteamEffect::ForgetHostUuid]
}

/// A lobby is going: whoever took it away, the host it named is no longer this peer's host, its
/// members may open no more sessions, and this peer leaves the Steam lobby. Leaving twice is
/// harmless.
pub fn forget_lobby(
    lobby_id: LobbyId,
    host: Option<SteamId>,
    current_lobby: Option<LobbyId>,
) -> (effects: Vec<SteamEffect>)
    ensures
        effects@ == forgotten(lobby_id, host, current_lobby),
{
    let mut effects: Vec<SteamEffect> = Vec::new();
    if let Some(host) = host {
        effects.push(SteamEffect::CloseSession(host));
    }
    effects.push(SteamEffect::LeaveLobby(lobby_id));
    if let Some(current) = current_lobby {
        if current == lobby_id {
            effects.push(SteamEffect::SetCurrentLobby(None));
        }
    }
    effects.push(SteamEffect::ForgetHostUuid);
    assert(effects@ =~= forgotten(lobby_id, host, current_lobby));
    effects
}

/// A lobby that went already ends without a word: a session's end is heard once.
pub proof fn law_a_lobby_ends_once(entity: u64, promoted: bool, reason: LobbyLeftReason)
    ensures
        lobby_ended(entity, false, promoted, reason) == Seq::<SteamEffect>::empty(),
{
}

} // verus!
