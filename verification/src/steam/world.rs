//! What Steam and the game hold of a session.

use vstd::prelude::*;

use crate::lists;

verus! {

/// A Steam user. Zero names nobody.
#[derive(Debug, Clone, Copy, PartialEq, Eq, Structural)]
pub struct SteamId(pub u64);

impl SteamId {
    pub fn from_raw(raw: u64) -> (id: Self)
        ensures
            id == SteamId(raw),
    {
        SteamId(raw)
    }

    pub fn raw(self) -> (raw: u64)
        ensures
            raw == self.0,
    {
        self.0
    }

    /// The player that this user plays as.
    pub open spec fn player(self) -> u128 {
        self.0 as u128
    }

    /// The player that this user plays as.
    pub fn player_uuid(self) -> (player: u128)
        ensures
            player == self.player(),
    {
        self.0 as u128
    }
}

/// A Steam lobby. Zero names none.
#[derive(Debug, Clone, Copy, PartialEq, Eq, Structural)]
pub struct LobbyId(pub u64);

impl LobbyId {
    pub fn from_raw(raw: u64) -> (id: Self)
        ensures
            id == LobbyId(raw),
    {
        LobbyId(raw)
    }

    pub fn raw(self) -> (raw: u64)
        ensures
            raw == self.0,
    {
        self.0
    }
}

/// What Steam's cache holds of a lobby.
#[derive(Debug)]
pub struct SteamLobbyRecord {
    pub lobby: LobbyId,
    pub owner: SteamId,
    pub members: Vec<SteamId>,
    /// Whether its host marked it as closed.
    pub closed: bool,
}

/// Steam's local cache, as it stands.
#[derive(Debug)]
pub struct SteamCache {
    pub records: Vec<SteamLobbyRecord>,
}

/// The record of a lobby.
pub open spec fn record_of(lobby: LobbyId) -> spec_fn(SteamLobbyRecord) -> bool {
    |record: SteamLobbyRecord| record.lobby == lobby
}

impl SteamCache {
    /// The owner of a lobby; nobody, where the cache has no answer.
    pub open spec fn owner(self, lobby: LobbyId) -> SteamId {
        let found = self.records@.filter(record_of(lobby));
        if found.len() > 0 {
            found[0].owner
        } else {
            SteamId(0)
        }
    }

    /// The members of a lobby; none, where the cache has no answer.
    pub open spec fn members(self, lobby: LobbyId) -> Seq<SteamId> {
        let found = self.records@.filter(record_of(lobby));
        if found.len() > 0 {
            found[0].members@
        } else {
            Seq::empty()
        }
    }

    /// Whether a lobby is marked as closed.
    pub open spec fn closed(self, lobby: LobbyId) -> bool {
        let found = self.records@.filter(record_of(lobby));
        found.len() > 0 && found[0].closed
    }

    fn find(&self, lobby: LobbyId) -> (found: Option<usize>)
        ensures
            match found {
                Some(i) => {
                    &&& i < self.records@.len()
                    &&& self.records@.filter(record_of(lobby)).len() > 0
                    &&& self.records@.filter(record_of(lobby))[0] == self.records@[i as int]
                },
                None => self.records@.filter(record_of(lobby)).len() == 0,
            },
    {
        let mut i: usize = 0;
        proof {
            reveal(Seq::filter);
        }
        while i < self.records.len()
            invariant
                i <= self.records@.len(),
                self.records@.take(i as int).filter(record_of(lobby)).len() == 0,
            decreases self.records.len() - i,
        {
            proof {
                reveal(Seq::filter);
                assert(self.records@.take(i + 1).drop_last() =~= self.records@.take(i as int));
            }
            if self.records[i].lobby == lobby {
                proof {
                    lists::lemma_first_of_filter(self.records@, i as int, record_of(lobby));
                }
                return Some(i);
            }
            i += 1;
        }
        assert(self.records@.take(i as int) =~= self.records@);
        None
    }

    /// The owner of a lobby; nobody, where the cache has no answer.
    pub fn lobby_owner(&self, lobby: LobbyId) -> (owner: SteamId)
        ensures
            owner == self.owner(lobby),
    {
        match self.find(lobby) {
            Some(i) => self.records[i].owner,
            None => SteamId(0),
        }
    }

    /// The members of a lobby; none, where the cache has no answer.
    pub fn lobby_members(&self, lobby: LobbyId) -> (members: Vec<SteamId>)
        ensures
            members@ == self.members(lobby),
    {
        let mut members: Vec<SteamId> = Vec::new();
        if let Some(at) = self.find(lobby) {
            let mut i: usize = 0;
            while i < self.records[at].members.len()
                invariant
                    at < self.records@.len(),
                    i <= self.records@[at as int].members@.len(),
                    members@ =~= self.records@[at as int].members@.take(i as int),
                decreases self.records@[at as int].members@.len() - i,
            {
                members.push(self.records[at].members[i]);
                i += 1;
            }
            assert(self.records@[at as int].members@.take(i as int)
                =~= self.records@[at as int].members@);
        }
        members
    }

    /// Whether a lobby is marked as closed.
    pub fn lobby_is_closed(&self, lobby: LobbyId) -> (closed: bool)
        ensures
            closed == self.closed(lobby),
    {
        match self.find(lobby) {
            Some(i) => self.records[i].closed,
            None => false,
        }
    }
}

/// A lobby of the session, pending or not.
#[derive(Debug, Clone, Copy, PartialEq, Eq)]
pub struct SteamLobby {
    pub entity: u64,
    /// Whether it is still to be created or joined.
    pub pending: bool,
    /// Whether this peer hosts it.
    pub hosted: bool,
    /// Whether it was asked for and Steam has not answered.
    pub requested: bool,
    /// Its lobby on Steam, once it is there.
    pub lobby_id: Option<LobbyId>,
    /// The host that a client's lobby is pinned to.
    pub host: Option<SteamId>,
    /// Whether it survives its host.
    pub migratable: bool,
    /// Whether the host was lost and its successor is being reached.
    pub reaching_successor: bool,
}

/// A player's seat in a hosted lobby.
#[derive(Debug, Clone, Copy, PartialEq, Eq)]
pub struct SteamSeat {
    pub entity: u64,
    pub lobby: u64,
    pub steam_id: SteamId,
    pub player_uuid: u128,
    /// Whether the player has not said yet that it is ready.
    pub pending: bool,
}

/// Everything there is of a session.
#[derive(Debug)]
pub struct SteamWorld {
    pub lobbies: Vec<SteamLobby>,
    pub seats: Vec<SteamSeat>,
}

/// An active lobby that this peer hosts.
pub open spec fn hosted_lobby() -> spec_fn(SteamLobby) -> bool {
    |lobby: SteamLobby| !lobby.pending && lobby.hosted
}

/// A lobby that was asked for, to be hosted.
pub open spec fn requested_lobby() -> spec_fn(SteamLobby) -> bool {
    |lobby: SteamLobby| lobby.requested && lobby.hosted
}

/// A client's lobby that has entered its Steam lobby.
pub open spec fn entered_lobby() -> spec_fn(SteamLobby) -> bool {
    |lobby: SteamLobby| !lobby.hosted && lobby.lobby_id is Some && lobby.host is Some
}

/// A client's lobby that is still to be joined.
pub open spec fn joining_lobby() -> spec_fn(SteamLobby) -> bool {
    |lobby: SteamLobby| lobby.pending && !lobby.hosted
}

/// A client's lobby that has not entered its Steam lobby.
pub open spec fn unentered_lobby() -> spec_fn(SteamLobby) -> bool {
    |lobby: SteamLobby| lobby.pending && !lobby.hosted && lobby.lobby_id is None
}

/// A client's lobby that has entered its Steam lobby, and survives its host.
pub open spec fn followed_lobby() -> spec_fn(SteamLobby) -> bool {
    |lobby: SteamLobby|
        !lobby.hosted && lobby.lobby_id is Some && lobby.host is Some && lobby.migratable
}

/// An active lobby on Steam that this peer hosts, and that survives it.
pub open spec fn replaceable_lobby() -> spec_fn(SteamLobby) -> bool {
    |lobby: SteamLobby|
        !lobby.pending && lobby.hosted && lobby.lobby_id is Some && lobby.migratable
}

/// What a lobby is looked for as.
#[derive(Debug, Clone, Copy, PartialEq, Eq, Structural)]
pub enum LobbyKind {
    Hosted,
    Requested,
    Entered,
    Joining,
    Unentered,
    Followed,
    Replaceable,
}

impl LobbyKind {
    /// Which lobbies are of this kind.
    pub open spec fn includes(self) -> spec_fn(SteamLobby) -> bool {
        match self {
            LobbyKind::Hosted => hosted_lobby(),
            LobbyKind::Requested => requested_lobby(),
            LobbyKind::Entered => entered_lobby(),
            LobbyKind::Joining => joining_lobby(),
            LobbyKind::Unentered => unentered_lobby(),
            LobbyKind::Followed => followed_lobby(),
            LobbyKind::Replaceable => replaceable_lobby(),
        }
    }

    fn fits(self, lobby: &SteamLobby) -> (fits: bool)
        ensures
            fits == (self.includes())(*lobby),
    {
        match self {
            LobbyKind::Hosted => !lobby.pending && lobby.hosted,
            LobbyKind::Requested => lobby.requested && lobby.hosted,
            LobbyKind::Entered => {
                !lobby.hosted && lobby.lobby_id.is_some() && lobby.host.is_some()
            },
            LobbyKind::Joining => lobby.pending && !lobby.hosted,
            LobbyKind::Unentered => lobby.pending && !lobby.hosted && lobby.lobby_id.is_none(),
            LobbyKind::Followed => {
                !lobby.hosted && lobby.lobby_id.is_some() && lobby.host.is_some()
                    && lobby.migratable
            },
            LobbyKind::Replaceable => {
                !lobby.pending && lobby.hosted && lobby.lobby_id.is_some() && lobby.migratable
            },
        }
    }
}

/// The first of a list that fits.
pub open spec fn first<T>(list: Seq<T>, fits: spec_fn(T) -> bool) -> Option<T> {
    let found = list.filter(fits);
    if found.len() > 0 {
        Some(found[0])
    } else {
        None
    }
}

/// The lobby this peer hosts, if there is exactly one.
pub open spec fn single_hosted(lobbies: Seq<SteamLobby>) -> Option<u64> {
    let hosted = lobbies.filter(hosted_lobby());
    if hosted.len() == 1 {
        Some(hosted[0].entity)
    } else {
        None
    }
}

/// The seat of a Steam user.
pub open spec fn seat_of(user: SteamId) -> spec_fn(SteamSeat) -> bool {
    |seat: SteamSeat| seat.steam_id == user
}

/// A seat of a Steam user, or of the player it plays as.
pub open spec fn known_as(user: SteamId) -> spec_fn(SteamSeat) -> bool {
    |seat: SteamSeat| seat.steam_id == user || seat.player_uuid == user.player()
}

impl SteamWorld {
    /// The lobbies of a kind, in order.
    pub fn lobbies_of(&self, kind: LobbyKind) -> (found: Vec<SteamLobby>)
        ensures
            found@ == self.lobbies@.filter(kind.includes()),
    {
        let mut found: Vec<SteamLobby> = Vec::new();
        let mut i: usize = 0;
        proof {
            reveal(Seq::filter);
        }
        while i < self.lobbies.len()
            invariant
                i <= self.lobbies@.len(),
                found@ == self.lobbies@.take(i as int).filter(kind.includes()),
            decreases self.lobbies.len() - i,
        {
            proof {
                reveal(Seq::filter);
                assert(self.lobbies@.take(i + 1).drop_last() =~= self.lobbies@.take(i as int));
            }
            if kind.fits(&self.lobbies[i]) {
                found.push(self.lobbies[i]);
            }
            i += 1;
        }
        assert(self.lobbies@.take(i as int) =~= self.lobbies@);
        found
    }

    /// The first lobby of a kind.
    pub fn first_of(&self, kind: LobbyKind) -> (found: Option<SteamLobby>)
        ensures
            found == first(self.lobbies@, kind.includes()),
    {
        let found = self.lobbies_of(kind);
        if found.len() > 0 {
            Some(found[0])
        } else {
            None
        }
    }

    /// The lobby this peer hosts, if there is exactly one.
    pub fn single_hosted(&self) -> (found: Option<u64>)
        ensures
            found == single_hosted(self.lobbies@),
    {
        let found = self.lobbies_of(LobbyKind::Hosted);
        if found.len() == 1 {
            Some(found[0].entity)
        } else {
            None
        }
    }

    /// The seat of a Steam user.
    pub fn seat_of(&self, user: SteamId) -> (seat: Option<SteamSeat>)
        ensures
            seat == first(self.seats@, seat_of(user)),
    {
        let mut i: usize = 0;
        proof {
            reveal(Seq::filter);
        }
        while i < self.seats.len()
            invariant
                i <= self.seats@.len(),
                self.seats@.take(i as int).filter(seat_of(user)).len() == 0,
            decreases self.seats.len() - i,
        {
            proof {
                reveal(Seq::filter);
                assert(self.seats@.take(i + 1).drop_last() =~= self.seats@.take(i as int));
            }
            if self.seats[i].steam_id == user {
                proof {
                    lists::lemma_first_of_filter(self.seats@, i as int, seat_of(user));
                }
                return Some(self.seats[i]);
            }
            i += 1;
        }
        assert(self.seats@.take(i as int) =~= self.seats@);
        None
    }

    /// Whether a Steam user, or the player it plays as, has a seat.
    pub fn is_known(&self, user: SteamId) -> (known: bool)
        ensures
            known == (first(self.seats@, known_as(user)) is Some),
    {
        let mut i: usize = 0;
        proof {
            reveal(Seq::filter);
        }
        while i < self.seats.len()
            invariant
                i <= self.seats@.len(),
                self.seats@.take(i as int).filter(known_as(user)).len() == 0,
            decreases self.seats.len() - i,
        {
            proof {
                reveal(Seq::filter);
                assert(self.seats@.take(i + 1).drop_last() =~= self.seats@.take(i as int));
            }
            if self.seats[i].steam_id == user || self.seats[i].player_uuid == user.player_uuid() {
                proof {
                    lists::lemma_first_of_filter(self.seats@, i as int, known_as(user));
                }
                return true;
            }
            i += 1;
        }
        assert(self.seats@.take(i as int) =~= self.seats@);
        false
    }
}

} // verus!
