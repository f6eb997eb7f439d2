//! How both ends of a Steam session find that the other is ready.

use vstd::prelude::*;

use super::packets;
use super::packets::{find_host, other_members};
use super::world;
use super::world::{SteamCache, SteamId, SteamLobby, SteamSeat, SteamWorld};
use crate::lists;

verus! {

/// How often a peer restates its readiness, in nanoseconds.
///
/// Messages are sent reliably, so loss is not the concern: what the other end has to promote may
/// not be there yet when the first one arrives.
pub const HANDSHAKE_INTERVAL: u64 = 500_000_000;

/// A handshake that arrived.
#[derive(Debug, Clone, Copy, PartialEq, Eq)]
pub struct ReceivedHandshake {
    /// Who sent it. `None` is this peer itself.
    pub sender: Option<u128>,
    /// Whether it claims to be the host's.
    pub from_host: bool,
}

/// When the next handshake goes out.
#[derive(Debug, Clone, Copy, PartialEq, Eq)]
pub struct HandshakeTimer {
    /// How long until then, in nanoseconds.
    pub cooldown: u64,
}

/// What is left of `cooldown` after a frame of `elapsed` nanoseconds: it starts anew when it has
/// run out.
pub open spec fn cooldown_after(cooldown: u64, elapsed: u64) -> u64 {
    if cooldown <= elapsed {
        HANDSHAKE_INTERVAL
    } else {
        (cooldown - elapsed) as u64
    }
}

impl HandshakeTimer {
    /// The first handshake goes out at once.
    pub fn new() -> (timer: Self)
        ensures
            timer.cooldown == 0,
    {
        HandshakeTimer { cooldown: 0 }
    }

    /// A frame of `elapsed` nanoseconds passed: whether handshakes go out.
    pub fn tick(&mut self, elapsed: u64) -> (send: bool)
        ensures
            send == (old(self).cooldown <= elapsed),
            final(self).cooldown == cooldown_after(old(self).cooldown, elapsed),
    {
        if self.cooldown > elapsed {
            self.cooldown = self.cooldown - elapsed;
            return false;
        }
        self.cooldown = HANDSHAKE_INTERVAL;
        true
    }
}

/// A client's lobby that is still to hear from its host: while joining, and again while following
/// a new one.
pub open spec fn is_reaching(lobby: SteamLobby) -> bool {
    !lobby.hosted && lobby.lobby_id is Some && (lobby.pending || lobby.reaching_successor)
}

/// The hosts that a client's handshakes go to.
pub open spec fn reached(lobbies: Seq<SteamLobby>, steam: SteamCache) -> Seq<SteamId>
    decreases lobbies.len(),
{
    if lobbies.len() == 0 {
        Seq::empty()
    } else {
        let before = reached(lobbies.drop_last(), steam);
        let lobby = lobbies.last();
        if is_reaching(lobby) {
            before.push(packets::host_of(steam, lobby.lobby_id->0, lobby.host))
        } else {
            before
        }
    }
}

/// Whom a client's handshakes go to.
pub fn send_client_handshakes(world: &SteamWorld, steam: &SteamCache) -> (targets: Vec<SteamId>)
    ensures
        targets@ == reached(world.lobbies@, *steam),
{
    let mut targets: Vec<SteamId> = Vec::new();
    let mut i: usize = 0;
    assert(world.lobbies@.take(0) =~= Seq::<SteamLobby>::empty());
    while i < world.lobbies.len()
        invariant
            i <= world.lobbies@.len(),
            targets@ == reached(world.lobbies@.take(i as int), *steam),
        decreases world.lobbies.len() - i,
    {
        let lobby: SteamLobby = world.lobbies[i];
        proof {
            assert(world.lobbies@.take(i + 1).drop_last() =~= world.lobbies@.take(i as int));
            assert(world.lobbies@.take(i + 1).last() == lobby);
        }
        if !lobby.hosted && (lobby.pending || lobby.reaching_successor) {
            if let Some(lobby_id) = lobby.lobby_id {
                targets.push(find_host(steam, lobby_id, lobby.host));
            }
        }
        i += 1;
    }
    assert(world.lobbies@.take(i as int) =~= world.lobbies@);
    targets
}

/// An active hosted lobby that is on Steam.
pub open spec fn hosted_on_steam() -> spec_fn(SteamLobby) -> bool {
    |lobby: SteamLobby| !lobby.pending && lobby.hosted && lobby.lobby_id is Some
}

/// Whom a host's handshakes go to.
pub open spec fn host_targets(
    lobbies: Seq<SteamLobby>,
    steam: SteamCache,
    local: SteamId,
) -> Seq<SteamId> {
    match world::first(lobbies, hosted_on_steam()) {
        Some(lobby) => steam.members(lobby.lobby_id->0).filter(packets::others(local)),
        None => Seq::empty(),
    }
}

/// Whom a host's handshakes go to: every other member of the lobby it hosts.
pub fn send_host_handshakes(world: &SteamWorld, steam: &SteamCache, local: SteamId) -> (targets:
    Vec<SteamId>)
    ensures
        targets@ == host_targets(world.lobbies@, *steam, local),
{
    let mut i: usize = 0;
    proof {
        reveal(Seq::filter);
    }
    while i < world.lobbies.len()
        invariant
            i <= world.lobbies@.len(),
            world.lobbies@.take(i as int).filter(hosted_on_steam()).len() == 0,
        decreases world.lobbies.len() - i,
    {
        proof {
            reveal(Seq::filter);
            assert(world.lobbies@.take(i + 1).drop_last() =~= world.lobbies@.take(i as int));
        }
        if !world.lobbies[i].pending && world.lobbies[i].hosted {
            if let Some(lobby_id) = world.lobbies[i].lobby_id {
                proof {
                    lists::lemma_first_of_filter(world.lobbies@, i as int, hosted_on_steam());
                }
                return other_members(steam, lobby_id, local);
            }
        }
        i += 1;
    }
    assert(world.lobbies@.take(i as int) =~= world.lobbies@);
    Vec::new()
}

/// A pending client lobby whose host plays as `player`.
pub open spec fn joining_from(steam: SteamCache, player: u128) -> spec_fn(SteamLobby) -> bool {
    |lobby: SteamLobby|
        lobby.pending && !lobby.hosted && lobby.lobby_id is Some && packets::host_of(
            steam,
            lobby.lobby_id->0,
            lobby.host,
        ).player() == player
}

/// The client's lobby that a handshake promotes.
pub open spec fn promoted_lobby(
    lobbies: Seq<SteamLobby>,
    steam: SteamCache,
    handshake: ReceivedHandshake,
) -> Option<u64> {
    match handshake.sender {
        Some(sender) if handshake.from_host => match world::first(
            lobbies,
            joining_from(steam, sender),
        ) {
            Some(lobby) => Some(lobby.entity),
            None => None,
        },
        _ => None,
    }
}

/// Promote a client's pending lobby once its host says it is ready; which lobby that is.
pub fn promote_client_lobby_on_host_handshake(
    world: &SteamWorld,
    steam: &SteamCache,
    handshake: ReceivedHandshake,
) -> (promoted: Option<u64>)
    ensures
        promoted == promoted_lobby(world.lobbies@, *steam, handshake),
{
    let sender: u128 = match handshake.sender {
        Some(sender) => sender,
        None => return None,
    };
    if !handshake.from_host {
        return None;
    }
    let mut i: usize = 0;
    proof {
        reveal(Seq::filter);
    }
    while i < world.lobbies.len()
        invariant
            i <= world.lobbies@.len(),
            handshake.sender == Some(sender),
            handshake.from_host,
            world.lobbies@.take(i as int).filter(joining_from(*steam, sender)).len() == 0,
        decreases world.lobbies.len() - i,
    {
        let lobby: SteamLobby = world.lobbies[i];
        proof {
            reveal(Seq::filter);
            assert(world.lobbies@.take(i + 1).drop_last() =~= world.lobbies@.take(i as int));
        }
        if lobby.pending && !lobby.hosted {
            if let Some(lobby_id) = lobby.lobby_id {
                if find_host(steam, lobby_id, lobby.host).player_uuid() == sender {
                    proof {
                        lists::lemma_first_of_filter(
                            world.lobbies@,
                            i as int,
                            joining_from(*steam, sender),
                        );
                    }
                    return Some(lobby.entity);
                }
            }
        }
        i += 1;
    }
    assert(world.lobbies@.take(i as int) =~= world.lobbies@);
    None
}

/// A pending seat of `player` in `lobby`.
pub open spec fn waiting_seat(lobby: u64, player: u128) -> spec_fn(SteamSeat) -> bool {
    |seat: SteamSeat| seat.pending && seat.lobby == lobby && seat.player_uuid == player
}

/// The seat that a handshake promotes, on a host.
pub open spec fn promoted_seat(
    lobbies: Seq<SteamLobby>,
    seats: Seq<SteamSeat>,
    handshake: ReceivedHandshake,
) -> Option<u64> {
    match (world::single_hosted(lobbies), handshake.sender) {
        (Some(lobby), Some(sender)) if !handshake.from_host => match world::first(
            seats,
            waiting_seat(lobby, sender),
        ) {
            Some(seat) => Some(seat.entity),
            None => None,
        },
        _ => None,
    }
}

/// Promote a player's seat once the player says it is ready, on a host; which seat that is.
pub fn promote_host_client_on_client_handshake(
    world: &SteamWorld,
    handshake: ReceivedHandshake,
) -> (promoted: Option<u64>)
    ensures
        promoted == promoted_seat(world.lobbies@, world.seats@, handshake),
{
    let lobby: u64 = match world.single_hosted() {
        Some(lobby) => lobby,
        None => return None,
    };
    let sender: u128 = match handshake.sender {
        Some(sender) => sender,
        None => return None,
    };
    if handshake.from_host {
        return None;
    }
    let mut i: usize = 0;
    proof {
        reveal(Seq::filter);
    }
    while i < world.seats.len()
        invariant
            i <= world.seats@.len(),
            world::single_hosted(world.lobbies@) == Some(lobby),
            handshake.sender == Some(sender),
            !handshake.from_host,
            world.seats@.take(i as int).filter(waiting_seat(lobby, sender)).len() == 0,
        decreases world.seats.len() - i,
    {
        proof {
            reveal(Seq::filter);
            assert(world.seats@.take(i + 1).drop_last() =~= world.seats@.take(i as int));
        }
        if world.seats[i].pending && world.seats[i].lobby == lobby && world.seats[i].player_uuid
            == sender {
            proof {
                lists::lemma_first_of_filter(
                    world.seats@,
                    i as int,
                    waiting_seat(lobby, sender),
                );
            }
            return Some(world.seats[i].entity);
        }
        i += 1;
    }
    assert(world.seats@.take(i as int) =~= world.seats@);
    None
}

/// A claim to be the host's promotes no lobby pinned to somebody else.
pub proof fn law_only_the_host_promotes(
    lobbies: Seq<SteamLobby>,
    steam: SteamCache,
    handshake: ReceivedHandshake,
)
    requires
        forall|i: int|
            0 <= i < lobbies.len() && (#[trigger] lobbies[i]).lobby_id is Some
                ==> handshake.sender != Some(
                packets::host_of(steam, lobbies[i].lobby_id->0, lobbies[i].host).player(),
            ),
    ensures
        promoted_lobby(lobbies, steam, handshake) is None,
{
    if let Some(sender) = handshake.sender {
        lists::lemma_none_kept(lobbies, joining_from(steam, sender));
    }
}

} // verus!
