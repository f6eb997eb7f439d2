//! Packets over Steam: whose are read, and whom they are sent to.

use vstd::prelude::*;

use super::events;
use super::events::ensure_pending_lobby_client_for_remote;
use super::teardown::SteamEffect;
use super::trust;
use super::trust::{accept_packet, PeerRole};
use super::world;
use super::world::{LobbyId, LobbyKind, SteamCache, SteamId, SteamLobby, SteamSeat, SteamWorld};
use crate::lists;
use crate::transport::SendMode;

verus! {

/// Refusals are worth a loud line in the log the first few times and noise after that.
pub const REFUSALS_LOGGED_LOUDLY: u64 = 3;

/// Who this peer decodes packets from this frame; see [`accept_packet`].
#[derive(Debug)]
pub struct PacketGate {
    pub role: PeerRole,
    /// The pinned host, on a client.
    pub owner: Option<SteamId>,
    /// The lobby's members, on a host. Read once per frame, not once per packet.
    pub members: Vec<SteamId>,
}

/// A lobby that is on Steam.
pub open spec fn on_steam() -> spec_fn(SteamLobby) -> bool {
    |lobby: SteamLobby| lobby.lobby_id is Some
}

/// The host a client's lobby talks to: the one pinned when it was joined, or — for a lobby that
/// somehow lacks the pin — whoever Steam currently names.
pub open spec fn host_of(steam: SteamCache, lobby_id: LobbyId, pinned: Option<SteamId>) -> SteamId {
    match pinned {
        Some(host) => host,
        None => steam.owner(lobby_id),
    }
}

/// The host a client's lobby talks to.
pub fn find_host(steam: &SteamCache, lobby_id: LobbyId, pinned: Option<SteamId>) -> (host: SteamId)
    ensures
        host == host_of(*steam, lobby_id, pinned),
{
    match pinned {
        Some(host) => host,
        None => steam.lobby_owner(lobby_id),
    }
}

fn first_on_steam(lobbies: &Vec<SteamLobby>) -> (found: Option<SteamLobby>)
    ensures
        found == world::first(lobbies@, on_steam()),
        found matches Some(lobby) ==> lobby.lobby_id is Some,
{
    let mut i: usize = 0;
    proof {
        reveal(Seq::filter);
    }
    while i < lobbies.len()
        invariant
            i <= lobbies@.len(),
            lobbies@.take(i as int).filter(on_steam()).len() == 0,
        decreases lobbies.len() - i,
    {
        proof {
            reveal(Seq::filter);
            assert(lobbies@.take(i + 1).drop_last() =~= lobbies@.take(i as int));
        }
        if lobbies[i].lobby_id.is_some() {
            proof {
                lists::lemma_first_of_filter(lobbies@, i as int, on_steam());
            }
            return Some(lobbies[i]);
        }
        i += 1;
    }
    assert(lobbies@.take(i as int) =~= lobbies@);
    None
}

/// Whether `gate` says who a peer in `lobbies` decodes packets from.
pub open spec fn is_gate_of(
    lobbies: Seq<SteamLobby>,
    steam: SteamCache,
    gate: Option<PacketGate>,
) -> bool {
    match world::first(lobbies, on_steam()) {
        None => gate is None,
        Some(lobby) => {
            &&& gate matches Some(gate)
            &&& if lobby.hosted {
                &&& gate.role == PeerRole::Host
                &&& gate.owner is None
                &&& gate.members@ == steam.members(lobby.lobby_id->0)
            } else {
                &&& gate.role == PeerRole::Client
                &&& gate.owner == Some(host_of(steam, lobby.lobby_id->0, lobby.host))
                &&& gate.members@ == Seq::<SteamId>::empty()
            }
        },
    }
}

/// Who this peer decodes packets from; nobody, when it is not in a lobby.
pub fn packet_gate(world: &SteamWorld, steam: &SteamCache) -> (gate: Option<PacketGate>)
    ensures
        is_gate_of(world.lobbies@, *steam, gate),
{
    let lobby: SteamLobby = match first_on_steam(&world.lobbies) {
        Some(lobby) => lobby,
        None => return None,
    };
    let lobby_id: LobbyId = match lobby.lobby_id {
        Some(lobby_id) => lobby_id,
        None => return None,
    };
    if lobby.hosted {
        Some(
            PacketGate {
                role: PeerRole::Host,
                owner: None,
                members: steam.lobby_members(lobby_id),
            },
        )
    } else {
        Some(
            PacketGate {
                role: PeerRole::Client,
                owner: Some(find_host(steam, lobby_id, lobby.host)),
                members: Vec::new(),
            },
        )
    }
}

/// Why a packet is dropped unread.
#[derive(Debug, Clone, Copy, PartialEq, Eq, Structural)]
pub enum Refusal {
    NoLobby,
    NotAMember,
    NotTheHost,
}

/// What is said about a refusal.
pub open spec fn refusal_text(refusal: Refusal) -> Seq<char> {
    match refusal {
        Refusal::NoLobby => "this peer is not in a lobby"@,
        Refusal::NotAMember => "not a member of the hosted lobby"@,
        Refusal::NotTheHost => "not the host this client joined"@,
    }
}

impl Refusal {
    /// What is said about this.
    pub fn why(self) -> (text: &'static str)
        ensures
            text@ == refusal_text(self),
    {
        match self {
            Refusal::NoLobby => "this peer is not in a lobby",
            Refusal::NotAMember => "not a member of the hosted lobby",
            Refusal::NotTheHost => "not the host this client joined",
        }
    }
}

/// Count a refused packet; whether it is worth a loud line.
pub fn refuse_packet(refused: &mut u64) -> (loud: bool)
    requires
        *old(refused) < u64::MAX,
    ensures
        *final(refused) == *old(refused) + 1,
        loud == (*final(refused) <= REFUSALS_LOGGED_LOUDLY),
{
    *refused = *refused + 1;
    *refused <= REFUSALS_LOGGED_LOUDLY
}

/// What becomes of a packet.
#[derive(Debug, PartialEq, Eq)]
pub enum PacketVerdict {
    /// It is dropped unread.
    Refuse(Refusal),
    /// It is decoded, once this is done.
    Read(Vec<SteamEffect>),
}

/// Why a packet from `from` is refused, if it is.
pub open spec fn refusal_of(gate: Option<PacketGate>, from: SteamId) -> Option<Refusal> {
    match gate {
        None => Some(Refusal::NoLobby),
        Some(gate) => if trust::reads(gate.role, gate.owner, gate.members@, from) {
            None
        } else {
            match gate.role {
                PeerRole::Host => Some(Refusal::NotAMember),
                PeerRole::Client => Some(Refusal::NotTheHost),
            }
        },
    }
}

/// Whether `verdict` is what becomes of a packet from `from`.
pub open spec fn is_verdict_on(
    lobbies: Seq<SteamLobby>,
    seats: Seq<SteamSeat>,
    gate: Option<PacketGate>,
    from: SteamId,
    verdict: PacketVerdict,
) -> bool {
    match refusal_of(gate, from) {
        Some(refusal) => verdict == PacketVerdict::Refuse(refusal),
        None => {
            &&& verdict matches PacketVerdict::Read(effects)
            &&& effects@ == match world::first(lobbies, world::hosted_lobby()) {
                Some(lobby) if gate->0.role == PeerRole::Host => {
                    events::seat_opened(seats, lobby.entity, from)
                },
                _ => Seq::empty(),
            }
        },
    }
}

/// What becomes of a packet from `from`. On a host, whoever is read has a seat from then on.
pub fn judge_packet(world: &SteamWorld, gate: &Option<PacketGate>, from: SteamId) -> (verdict:
    PacketVerdict)
    ensures
        is_verdict_on(world.lobbies@, world.seats@, *gate, from, verdict),
{
    let gate: &PacketGate = match gate {
        Some(gate) => gate,
        None => return PacketVerdict::Refuse(Refusal::NoLobby),
    };
    if !accept_packet(gate.role, gate.owner, gate.members.as_slice(), from) {
        return PacketVerdict::Refuse(
            match gate.role {
                PeerRole::Host => Refusal::NotAMember,
                PeerRole::Client => Refusal::NotTheHost,
            },
        );
    }
    let mut effects: Vec<SteamEffect> = Vec::new();
    if gate.role == PeerRole::Host {
        if let Some(lobby) = world.first_of(LobbyKind::Hosted) {
            ensure_pending_lobby_client_for_remote(&mut effects, world, lobby.entity, from);
            assert(effects@ =~= events::seat_opened(world.seats@, lobby.entity, from));
        }
    }
    PacketVerdict::Read(effects)
}

/// How Steam is told to send.
#[derive(Debug, Clone, Copy, PartialEq, Eq, Structural)]
pub enum SendFlags {
    Reliable,
    ReliableNoNagle,
    UnreliableNoNagle,
}

/// How Steam is told to send in a mode. The one transport that coalesces: a bare reliable send
/// holds a small message for a moment, hoping to pack it with the next.
pub fn send_flags(mode: SendMode) -> (flags: SendFlags)
    ensures
        flags == match mode {
            SendMode::Reliable => SendFlags::Reliable,
            SendMode::ReliableNoDelay => SendFlags::ReliableNoNagle,
            SendMode::Unreliable => SendFlags::UnreliableNoNagle,
        },
{
    match mode {
        SendMode::Reliable => SendFlags::Reliable,
        SendMode::ReliableNoDelay => SendFlags::ReliableNoNagle,
        SendMode::Unreliable => SendFlags::UnreliableNoNagle,
    }
}

/// A lobby on Steam under the name `entity`.
pub open spec fn lobby_named(entity: u64) -> spec_fn(SteamLobby) -> bool {
    |lobby: SteamLobby| lobby.entity == entity && lobby.lobby_id is Some
}

/// A seat under the name `entity`.
pub open spec fn seat_named(entity: u64) -> spec_fn(SteamSeat) -> bool {
    |seat: SteamSeat| seat.entity == entity
}

/// Members but for this peer.
pub open spec fn others(local: SteamId) -> spec_fn(SteamId) -> bool {
    |member: SteamId| member != local
}

/// Whom a packet for a lobby goes to: from a host every other member, from a client its host.
pub open spec fn lobby_targets(lobby: SteamLobby, steam: SteamCache, local: SteamId) -> Seq<
    SteamId,
> {
    if lobby.hosted {
        steam.members(lobby.lobby_id->0).filter(others(local))
    } else {
        seq![host_of(steam, lobby.lobby_id->0, lobby.host)]
    }
}

/// Whom a packet for `entity` goes to; `None` when it names nothing a packet can go to.
pub open spec fn packet_targets(
    lobbies: Seq<SteamLobby>,
    seats: Seq<SteamSeat>,
    steam: SteamCache,
    local: SteamId,
    entity: u64,
) -> Option<Seq<SteamId>> {
    match world::first(lobbies, lobby_named(entity)) {
        Some(lobby) => Some(lobby_targets(lobby, steam, local)),
        None => match world::first(seats, seat_named(entity)) {
            Some(seat) => Some(seq![seat.steam_id]),
            None => None,
        },
    }
}

/// Every other member of a lobby.
pub(crate) fn other_members(steam: &SteamCache, lobby_id: LobbyId, local: SteamId) -> (rest: Vec<
    SteamId,
>)
    ensures
        rest@ == steam.members(lobby_id).filter(others(local)),
{
    let members = steam.lobby_members(lobby_id);
    let mut rest: Vec<SteamId> = Vec::new();
    let mut i: usize = 0;
    proof {
        reveal(Seq::filter);
    }
    while i < members.len()
        invariant
            i <= members@.len(),
            rest@ == members@.take(i as int).filter(others(local)),
        decreases members.len() - i,
    {
        proof {
            reveal(Seq::filter);
            assert(members@.take(i + 1).drop_last() =~= members@.take(i as int));
        }
        if members[i] != local {
            rest.push(members[i]);
        }
        i += 1;
    }
    assert(members@.take(i as int) =~= members@);
    rest
}

/// Whom a packet triggered on `entity` is sent to; `None` when it names nothing a packet can go
/// to.
pub fn send_serialized_lobby_packet(
    world: &SteamWorld,
    steam: &SteamCache,
    local: SteamId,
    entity: u64,
) -> (targets: Option<Vec<SteamId>>)
    ensures
        match packet_targets(world.lobbies@, world.seats@, *steam, local, entity) {
            Some(due) => targets matches Some(targets) && targets@ == due,
            None => targets is None,
        },
{
    let mut i: usize = 0;
    proof {
        reveal(Seq::filter);
    }
    while i < world.lobbies.len()
        invariant
            i <= world.lobbies@.len(),
            world.lobbies@.take(i as int).filter(lobby_named(entity)).len() == 0,
        decreases world.lobbies.len() - i,
    {
        let lobby: SteamLobby = world.lobbies[i];
        proof {
            reveal(Seq::filter);
            assert(world.lobbies@.take(i + 1).drop_last() =~= world.lobbies@.take(i as int));
        }
        if lobby.entity == entity {
            if let Some(lobby_id) = lobby.lobby_id {
                proof {
                    lists::lemma_first_of_filter(world.lobbies@, i as int, lobby_named(entity));
                }
                if lobby.hosted {
                    return Some(other_members(steam, lobby_id, local));
                }
                let mut targets: Vec<SteamId> = Vec::new();
                targets.push(find_host(steam, lobby_id, lobby.host));
                assert(targets@ =~= lobby_targets(lobby, *steam, local));
                return Some(targets);
            }
        }
        i += 1;
    }
    assert(world.lobbies@.take(i as int) =~= world.lobbies@);
    let mut i: usize = 0;
    while i < world.seats.len()
        invariant
            i <= world.seats@.len(),
            world.lobbies@.filter(lobby_named(entity)).len() == 0,
            world.seats@.take(i as int).filter(seat_named(entity)).len() == 0,
        decreases world.seats.len() - i,
    {
        proof {
            reveal(Seq::filter);
            assert(world.seats@.take(i + 1).drop_last() =~= world.seats@.take(i as int));
        }
        if world.seats[i].entity == entity {
            proof {
                lists::lemma_first_of_filter(world.seats@, i as int, seat_named(entity));
            }
            let mut targets: Vec<SteamId> = Vec::new();
            targets.push(world.seats[i].steam_id);
            assert(targets@ =~= seq![world.seats@[i as int].steam_id]);
            return Some(targets);
        }
        i += 1;
    }
    assert(world.seats@.take(i as int) =~= world.seats@);
    None
}

} // verus!
