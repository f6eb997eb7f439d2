//! How both ends of a data channel find that the other is ready.
//!
//! A client's lobby is pending until its host says it is ready; a player's seat is pending until
//! the player does.

use vstd::prelude::*;

use super::world;
use super::world::{LobbyEntity, LobbyKind, SeatEntity, SessionWorld};
use crate::lists;

verus! {

/// How often a peer restates its readiness handshake, in nanoseconds.
///
/// Only the repeat rate. The first one goes out on the frame a lobby appears.
pub const HANDSHAKE_INTERVAL: u64 = 500_000_000;

/// A handshake that arrived over a data channel.
#[derive(Debug, Clone, Copy, PartialEq, Eq)]
pub struct ReceivedHandshake {
    /// Who sent it. `None` is this peer itself.
    pub sender: Option<u128>,
    /// Whether it claims to be the host's.
    pub from_host: bool,
}

/// When the next handshake goes out.
#[derive(Debug, Clone, Copy, PartialEq, Eq)]
pub struct HandshakeTimer {
    /// How long until then, in nanoseconds.
    pub cooldown: u64,
}

/// What is left of `cooldown` after a frame of `elapsed` nanoseconds: it starts anew when it has
/// run out, and stands still without a lobby.
pub open spec fn cooldown_after(cooldown: u64, has_lobby: bool, elapsed: u64) -> u64 {
    if !has_lobby {
        cooldown
    } else if cooldown <= elapsed {
        HANDSHAKE_INTERVAL
    } else {
        (cooldown - elapsed) as u64
    }
}

impl HandshakeTimer {
    /// The first handshake goes out at once.
    pub fn new() -> (timer: Self)
        ensures
            timer.cooldown == 0,
    {
        HandshakeTimer { cooldown: 0 }
    }

    /// A frame of `elapsed` nanoseconds passed: whether a handshake goes out.
    ///
    /// Without a lobby there is nothing to send, and the timer does not run either: otherwise it
    /// would be mid-cycle on the frame a lobby appears, and the first handshake would wait for up
    /// to a full period. That period is exactly the window in which the data channel is up but the
    /// lobby is not yet active.
    pub fn tick(&mut self, has_lobby: bool, elapsed: u64) -> (send: bool)
        ensures
            send == (has_lobby && old(self).cooldown <= elapsed),
            final(self).cooldown == cooldown_after(old(self).cooldown, has_lobby, elapsed),
    {
        if !has_lobby {
            return false;
        }
        if self.cooldown > elapsed {
            self.cooldown = self.cooldown - elapsed;
            return false;
        }
        self.cooldown = HANDSHAKE_INTERVAL;
        true
    }
}

/// A handshake to be sent.
#[derive(Debug, Clone, Copy, PartialEq, Eq)]
pub struct OutgoingHandshake {
    pub to: u128,
    /// Whether it claims to be the host's.
    pub from_host: bool,
}

/// A handshake for each of `peers`, in order.
pub open spec fn handshakes_to(peers: Seq<u128>, from_host: bool) -> Seq<OutgoingHandshake> {
    peers.map_values(|to: u128| OutgoingHandshake { to, from_host })
}

fn address_handshakes(peers: &Vec<u128>, from_host: bool) -> (handshakes: Vec<OutgoingHandshake>)
    ensures
        handshakes@ == handshakes_to(peers@, from_host),
{
    let mut handshakes: Vec<OutgoingHandshake> = Vec::new();
    let mut i: usize = 0;
    while i < peers.len()
        invariant
            i <= peers@.len(),
            handshakes@ =~= handshakes_to(peers@.take(i as int), from_host),
        decreases peers.len() - i,
    {
        handshakes.push(OutgoingHandshake { to: peers[i], from_host });
        i += 1;
    }
    assert(peers@.take(i as int) =~= peers@);
    handshakes
}

/// Whether this peer is a client of a lobby that the server knows. Whether the lobby is still
/// pending has no part in it.
pub open spec fn is_known_client(lobbies: Seq<LobbyEntity>) -> bool {
    world::first_lobby(lobbies, world::known_client_lobby()) is Some
}

/// Whether this peer hosts an active lobby that the server knows.
pub open spec fn is_known_host(lobbies: Seq<LobbyEntity>) -> bool {
    world::first_lobby(lobbies, world::known_hosted_lobby()) is Some
}

/// The handshakes that go out in a frame of `elapsed` nanoseconds.
pub open spec fn handshakes_due(
    speaks: bool,
    connected: Seq<u128>,
    from_host: bool,
    cooldown: u64,
    elapsed: u64,
) -> Seq<OutgoingHandshake> {
    if speaks && cooldown <= elapsed {
        handshakes_to(connected, from_host)
    } else {
        Seq::empty()
    }
}

/// The handshakes a client sends in a frame of `elapsed` nanoseconds, to every peer it is connected
/// to.
///
/// It keeps sending after its lobby is promoted. The host opens the client's seat when the server
/// says that the client joined, which can be after the host's own handshake has promoted the
/// client's lobby: if the client stopped there, the host might never hear a handshake to promote
/// the seat with.
pub fn send_client_handshakes(
    timer: &mut HandshakeTimer,
    world: &SessionWorld,
    connected: &Vec<u128>,
    elapsed: u64,
) -> (handshakes: Vec<OutgoingHandshake>)
    ensures
        handshakes@ == handshakes_due(
            is_known_client(world.lobbies@),
            connected@,
            false,
            old(timer).cooldown,
            elapsed,
        ),
        final(timer).cooldown == cooldown_after(
            old(timer).cooldown,
            is_known_client(world.lobbies@),
            elapsed,
        ),
{
    let has_lobby = world.first_of(LobbyKind::KnownClient).is_some();
    if timer.tick(has_lobby, elapsed) {
        address_handshakes(connected, false)
    } else {
        Vec::new()
    }
}

/// The handshakes a host sends in a frame of `elapsed` nanoseconds, to every peer it is connected
/// to. Its lobby has to be active.
pub fn send_host_handshakes(
    timer: &mut HandshakeTimer,
    world: &SessionWorld,
    connected: &Vec<u128>,
    elapsed: u64,
) -> (handshakes: Vec<OutgoingHandshake>)
    ensures
        handshakes@ == handshakes_due(
            is_known_host(world.lobbies@),
            connected@,
            true,
            old(timer).cooldown,
            elapsed,
        ),
        final(timer).cooldown == cooldown_after(
            old(timer).cooldown,
            is_known_host(world.lobbies@),
            elapsed,
        ),
{
    let has_lobby = world.first_of(LobbyKind::KnownHosted).is_some();
    if timer.tick(has_lobby, elapsed) {
        address_handshakes(connected, true)
    } else {
        Vec::new()
    }
}

/// A client goes on sending handshakes when its lobby is promoted: as long as it is a client of a
/// lobby that the server knows, whatever is pending and whatever else there is.
pub proof fn law_a_promoted_client_keeps_sending(lobbies: Seq<LobbyEntity>, i: int, pending: bool)
    requires
        0 <= i < lobbies.len(),
        !lobbies[i].hosted,
        lobbies[i].lobby_id is Some,
    ensures
        is_known_client(lobbies),
        is_known_client(lobbies.update(i, LobbyEntity { pending, ..lobbies[i] })),
{
    let promoted = lobbies.update(i, LobbyEntity { pending, ..lobbies[i] });
    lists::lemma_fitting_is_kept(lobbies, world::known_client_lobby(), i);
    lists::lemma_fitting_is_kept(promoted, world::known_client_lobby(), i);
}

/// Whether a handshake that claims to be the host's actually came from `host`.
///
/// `None` is this peer itself, which is not the host either.
pub fn handshake_is_from_host(host: u128, sender: Option<u128>) -> (is: bool)
    ensures
        is == (sender == Some(host)),
{
    match sender {
        Some(sender) => sender == host,
        None => false,
    }
}

/// Whether a handshake promotes the pending lobby `lobby`.
pub open spec fn promotes(lobby: LobbyEntity, handshake: ReceivedHandshake) -> bool {
    &&& handshake.from_host
    &&& lobby.host_uuid is Some
    &&& handshake.sender == lobby.host_uuid
}

/// The client's lobby that handshakes promote.
pub open spec fn promoted_lobby(
    lobbies: Seq<LobbyEntity>,
    handshakes: Seq<ReceivedHandshake>,
) -> Option<u64> {
    match world::first_lobby(lobbies, world::pending_client_lobby()) {
        Some(lobby) if exists|i: int|
            0 <= i < handshakes.len() && promotes(lobby, #[trigger] handshakes[i]) => Some(
            lobby.entity,
        ),
        _ => None,
    }
}

/// Promote a client's pending lobby once its host says it is ready; which lobby that is.
///
/// "Its host" is the peer the signalling server named. A handshake claiming to be the host's from
/// any other peer is ignored: the claim is a byte in a packet anybody can send, and acting on it
/// would let whoever sent it first decide when this client believes it is in a session.
pub fn promote_client_lobby_on_host_handshake(
    world: &SessionWorld,
    handshakes: &Vec<ReceivedHandshake>,
) -> (promoted: Option<u64>)
    ensures
        promoted == promoted_lobby(world.lobbies@, handshakes@),
{
    let lobby: LobbyEntity = match world.first_of(LobbyKind::PendingClient) {
        Some(lobby) => lobby,
        None => return None,
    };
    let host: u128 = match lobby.host_uuid {
        Some(host) => host,
        None => return None,
    };
    let mut i: usize = 0;
    while i < handshakes.len()
        invariant
            i <= handshakes@.len(),
            Some(lobby) == world::first_lobby(world.lobbies@, world::pending_client_lobby()),
            lobby.host_uuid == Some(host),
            forall|j: int| 0 <= j < i ==> !promotes(lobby, #[trigger] handshakes@[j]),
        decreases handshakes.len() - i,
    {
        if handshakes[i].from_host && handshake_is_from_host(host, handshakes[i].sender) {
            assert(promotes(lobby, handshakes@[i as int]));
            return Some(lobby.entity);
        }
        i += 1;
    }
    None
}

/// A pending seat of `player` in `lobby`.
pub open spec fn waiting_seat(lobby: u64, player: u128) -> spec_fn(SeatEntity) -> bool {
    |seat: SeatEntity| seat.pending && seat.lobby == Some(lobby) && seat.player_uuid == player
}

/// The seat that a handshake promotes in the hosted `lobby`.
pub open spec fn promoted_seat(
    seats: Seq<SeatEntity>,
    lobby: u64,
    handshake: ReceivedHandshake,
) -> Option<u64> {
    match handshake.sender {
        Some(sender) if !handshake.from_host => {
            let waiting = seats.filter(waiting_seat(lobby, sender));
            if waiting.len() > 0 {
                Some(waiting[0].entity)
            } else {
                None
            }
        },
        _ => None,
    }
}

/// The seats that handshakes promote, in order.
pub open spec fn promoted_seats(
    seats: Seq<SeatEntity>,
    lobby: u64,
    handshakes: Seq<ReceivedHandshake>,
) -> Seq<u64>
    decreases handshakes.len(),
{
    if handshakes.len() == 0 {
        Seq::empty()
    } else {
        let before = promoted_seats(seats, lobby, handshakes.drop_last());
        match promoted_seat(seats, lobby, handshakes.last()) {
            Some(seat) => before.push(seat),
            None => before,
        }
    }
}

fn find_waiting(seats: &Vec<SeatEntity>, lobby: u64, player: u128) -> (seat: Option<u64>)
    ensures
        seat == if seats@.filter(waiting_seat(lobby, player)).len() > 0 {
            Some(seats@.filter(waiting_seat(lobby, player))[0].entity)
        } else {
            None
        },
{
    let mut i: usize = 0;
    proof {
        reveal(Seq::filter);
    }
    while i < seats.len()
        invariant
            i <= seats@.len(),
            seats@.take(i as int).filter(waiting_seat(lobby, player)).len() == 0,
        decreases seats.len() - i,
    {
        proof {
            reveal(Seq::filter);
            assert(seats@.take(i + 1).drop_last() =~= seats@.take(i as int));
        }
        let here: bool = match seats[i].lobby {
            Some(here) => here == lobby,
            None => false,
        };
        if seats[i].pending && here && seats[i].player_uuid == player {
            proof {
                lists::lemma_first_of_filter(seats@, i as int, waiting_seat(lobby, player));
            }
            return Some(seats[i].entity);
        }
        i += 1;
    }
    assert(seats@.take(i as int) =~= seats@);
    None
}

/// The seats that handshakes promote on a host; none, where no lobby or more than one is hosted.
pub open spec fn promoted_players(
    lobbies: Seq<LobbyEntity>,
    seats: Seq<SeatEntity>,
    handshakes: Seq<ReceivedHandshake>,
) -> Seq<u64> {
    match world::single_hosted(lobbies) {
        Some(lobby) => promoted_seats(seats, lobby, handshakes),
        None => Seq::empty(),
    }
}

/// Promote the seats whose players say they are ready, on a host; which seats those are.
pub fn promote_host_client_on_client_handshake(
    world: &SessionWorld,
    handshakes: &Vec<ReceivedHandshake>,
) -> (promoted: Vec<u64>)
    ensures
        promoted@ == promoted_players(world.lobbies@, world.seats@, handshakes@),
{
    let mut promoted: Vec<u64> = Vec::new();
    let lobby: u64 = match world.single_hosted() {
        Some(lobby) => lobby,
        None => return promoted,
    };
    let mut i: usize = 0;
    assert(handshakes@.take(0) =~= Seq::<ReceivedHandshake>::empty());
    while i < handshakes.len()
        invariant
            i <= handshakes@.len(),
            promoted@ == promoted_seats(world.seats@, lobby, handshakes@.take(i as int)),
        decreases handshakes.len() - i,
    {
        let handshake: ReceivedHandshake = handshakes[i];
        proof {
            assert(handshakes@.take(i + 1).drop_last() =~= handshakes@.take(i as int));
            assert(handshakes@.take(i + 1).last() == handshake);
        }
        if !handshake.from_host {
            if let Some(sender) = handshake.sender {
                if let Some(seat) = find_waiting(&world.seats, lobby, sender) {
                    promoted.push(seat);
                }
            }
        }
        i += 1;
    }
    assert(handshakes@.take(i as int) =~= handshakes@);
    promoted
}

/// No claim promotes a client's lobby but the host's own.
pub proof fn law_only_the_host_promotes(lobby: LobbyEntity, handshake: ReceivedHandshake, host: u128)
    requires
        lobby.host_uuid == Some(host),
        handshake.sender != Some(host),
    ensures
        !promotes(lobby, handshake),
{
}

/// A player's seat is promoted by nobody else's handshake.
pub proof fn law_a_player_promotes_its_own_seat(
    seats: Seq<SeatEntity>,
    lobby: u64,
    handshake: ReceivedHandshake,
)
    requires
        promoted_seat(seats, lobby, handshake) is Some,
    ensures
        exists|i: int|
            0 <= i < seats.len() && Some((#[trigger] seats[i]).player_uuid) == handshake.sender
                && seats[i].lobby == Some(lobby) && Some(seats[i].entity) == promoted_seat(
                seats,
                lobby,
                handshake,
            ),
{
    lists::lemma_kept_is_part(seats, waiting_seat(lobby, handshake.sender->0), 0);
}

} // verus!
