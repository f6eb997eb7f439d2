//! A game's session, as it stands.

use vstd::prelude::*;

use crate::sockets::route::PeerRoute;

verus! {

/// A lobby, pending or not.
#[derive(Debug, Clone, Copy, PartialEq, Eq)]
pub struct LobbyEntity {
    pub entity: u64,
    /// Whether it is still to be created or joined.
    pub pending: bool,
    /// Whether this peer hosts it.
    pub hosted: bool,
    /// Whether it was asked for and the server has not answered.
    pub requested: bool,
    /// Its id on the server, once the server has said.
    pub lobby_id: Option<u64>,
    /// Who hosts it, as the server named them. `None` on a hosted lobby, and before the server
    /// has said.
    pub host_uuid: Option<u128>,
    /// Whether it survives its host.
    pub migratable: bool,
    /// How the host is reached.
    pub route: Option<PeerRoute>,
    /// When it was first seen pending, in nanoseconds.
    pub pending_since: Option<u64>,
}

/// A player's seat in a hosted lobby.
#[derive(Debug, Clone, Copy, PartialEq, Eq)]
pub struct SeatEntity {
    pub entity: u64,
    /// The lobby the seat is in.
    pub lobby: Option<u64>,
    pub webrtc_uuid: u128,
    pub player_uuid: u128,
    /// Whether the player has not said yet that it is ready.
    pub pending: bool,
    /// How the player is reached.
    pub route: Option<PeerRoute>,
}

/// Anybody who takes part in a lobby.
#[derive(Debug, Clone, Copy, PartialEq, Eq)]
pub struct ParticipantEntity {
    pub entity: u64,
    pub lobby: u64,
}

/// Everything there is of a session.
#[derive(Debug)]
pub struct SessionWorld {
    pub lobbies: Vec<LobbyEntity>,
    pub seats: Vec<SeatEntity>,
    pub participants: Vec<ParticipantEntity>,
}

/// An active lobby that this peer hosts.
pub open spec fn hosted_lobby() -> spec_fn(LobbyEntity) -> bool {
    |lobby: LobbyEntity| !lobby.pending && lobby.hosted
}

/// A lobby that this peer asked for, to host it.
pub open spec fn pending_host_lobby() -> spec_fn(LobbyEntity) -> bool {
    |lobby: LobbyEntity| lobby.pending && lobby.requested && lobby.hosted
}

/// A lobby that this peer is joining.
pub open spec fn pending_client_lobby() -> spec_fn(LobbyEntity) -> bool {
    |lobby: LobbyEntity| lobby.pending && !lobby.hosted
}

/// A lobby that this peer has joined.
pub open spec fn active_client_lobby() -> spec_fn(LobbyEntity) -> bool {
    |lobby: LobbyEntity| !lobby.pending && !lobby.hosted
}

/// A lobby that this peer has joined or is joining.
pub open spec fn client_lobby() -> spec_fn(LobbyEntity) -> bool {
    |lobby: LobbyEntity| !lobby.hosted
}

/// A lobby that this peer has joined or is joining, and that the server knows.
pub open spec fn known_client_lobby() -> spec_fn(LobbyEntity) -> bool {
    |lobby: LobbyEntity| !lobby.hosted && lobby.lobby_id is Some
}

/// An active lobby that this peer hosts, and that the server knows.
pub open spec fn known_hosted_lobby() -> spec_fn(LobbyEntity) -> bool {
    |lobby: LobbyEntity| !lobby.pending && lobby.hosted && lobby.lobby_id is Some
}

/// The lobby this peer hosts, if there is exactly one.
pub open spec fn single_hosted(lobbies: Seq<LobbyEntity>) -> Option<u64> {
    let hosted = lobbies.filter(hosted_lobby());
    if hosted.len() == 1 {
        Some(hosted[0].entity)
    } else {
        None
    }
}

/// The first of `lobbies` that is `wanted`.
pub open spec fn first_lobby(lobbies: Seq<LobbyEntity>, wanted: spec_fn(LobbyEntity) -> bool) -> Option<
    LobbyEntity,
> {
    let found = lobbies.filter(wanted);
    if found.len() > 0 {
        Some(found[0])
    } else {
        None
    }
}

/// What a lobby is looked for as.
#[derive(Debug, Clone, Copy, PartialEq, Eq, Structural)]
pub enum LobbyKind {
    Hosted,
    PendingHost,
    PendingClient,
    ActiveClient,
    Client,
    KnownClient,
    KnownHosted,
}

impl LobbyKind {
    /// Which lobbies are of this kind.
    pub open spec fn includes(self) -> spec_fn(LobbyEntity) -> bool {
        match self {
            LobbyKind::Hosted => hosted_lobby(),
            LobbyKind::PendingHost => pending_host_lobby(),
            LobbyKind::PendingClient => pending_client_lobby(),
            LobbyKind::ActiveClient => active_client_lobby(),
            LobbyKind::Client => client_lobby(),
            LobbyKind::KnownClient => known_client_lobby(),
            LobbyKind::KnownHosted => known_hosted_lobby(),
        }
    }

    fn fits(self, lobby: &LobbyEntity) -> (fits: bool)
        ensures
            fits == (self.includes())(*lobby),
    {
        match self {
            LobbyKind::Hosted => !lobby.pending && lobby.hosted,
            LobbyKind::PendingHost => lobby.pending && lobby.requested && lobby.hosted,
            LobbyKind::PendingClient => lobby.pending && !lobby.hosted,
            LobbyKind::ActiveClient => !lobby.pending && !lobby.hosted,
            LobbyKind::Client => !lobby.hosted,
            LobbyKind::KnownClient => !lobby.hosted && lobby.lobby_id.is_some(),
            LobbyKind::KnownHosted => {
                !lobby.pending && lobby.hosted && lobby.lobby_id.is_some()
            },
        }
    }
}

impl SessionWorld {
    /// The lobbies of a kind, in order.
    pub fn lobbies_of(&self, kind: LobbyKind) -> (found: Vec<LobbyEntity>)
        ensures
            found@ == self.lobbies@.filter(kind.includes()),
    {
        let mut found: Vec<LobbyEntity> = Vec::new();
        let mut i: usize = 0;
        assert(self.lobbies@.take(0).filter(kind.includes()) =~= Seq::<LobbyEntity>::empty()) by {
            reveal(Seq::filter);
        }
        while i < self.lobbies.len()
            invariant
                i <= self.lobbies@.len(),
                found@ == self.lobbies@.take(i as int).filter(kind.includes()),
            decreases self.lobbies.len() - i,
        {
            proof {
                reveal(Seq::filter);
                assert(self.lobbies@.take(i + 1).drop_last() =~= self.lobbies@.take(i as int));
            }
            if kind.fits(&self.lobbies[i]) {
                found.push(self.lobbies[i]);
            }
            i += 1;
        }
        assert(self.lobbies@.take(i as int) =~= self.lobbies@);
        found
    }

    /// The first lobby of a kind.
    pub fn first_of(&self, kind: LobbyKind) -> (found: Option<LobbyEntity>)
        ensures
            found == first_lobby(self.lobbies@, kind.includes()),
    {
        let found = self.lobbies_of(kind);
        if found.len() > 0 {
            Some(found[0])
        } else {
            None
        }
    }

    /// The lobby this peer hosts, if there is exactly one.
    ///
    /// Not merely a missing lobby: with two, there is no telling which one is meant.
    pub fn single_hosted(&self) -> (found: Option<u64>)
        ensures
            found == single_hosted(self.lobbies@),
    {
        let found = self.lobbies_of(LobbyKind::Hosted);
        if found.len() == 1 {
            Some(found[0].entity)
        } else {
            None
        }
    }
}

} // verus!
