//! Whom a peer trusts.
//!
//! A client answers and reads its host, and nobody else. A host reads the peers the signalling
//! server told it joined. The decision is made before anything is decoded.

use std::collections::HashMap;
use vstd::prelude::*;

use super::world;
use super::world::{LobbyEntity, LobbyKind, SeatEntity, SessionWorld};
use crate::lists;

verus! {

/// Which side of the session this peer is on, as far as trust decisions go.
///
/// Derived from the lobbies each time it is needed rather than stored, so it cannot go stale: a
/// peer is a host while it has a hosted lobby, a client while it has a joined or pending-join
/// lobby, and nothing in between.
#[derive(Clone, Copy, Debug, PartialEq, Eq, Structural)]
pub enum PeerRole {
    Host,
    Client,
    /// No lobby at all. Nothing arriving over a data channel or a signal is expected.
    Unattached,
}

/// This peer's role, and whom it takes for its host. `pending_counts` says whether a lobby that
/// is still to be created makes this peer a host.
pub open spec fn standing(lobbies: Seq<LobbyEntity>, pending_counts: bool) -> (
    PeerRole,
    Option<u128>,
) {
    match world::first_lobby(lobbies, world::client_lobby()) {
        Some(lobby) => (PeerRole::Client, lobby.host_uuid),
        None => if exists|i: int|
            0 <= i < lobbies.len() && (#[trigger] lobbies[i]).hosted && (pending_counts
                || !lobbies[i].pending) {
            (PeerRole::Host, None)
        } else {
            (PeerRole::Unattached, None)
        },
    }
}

/// This peer's role, and whom it takes for its host.
///
/// For a signal a lobby still to be created counts as hosted; for a packet it does not.
pub fn standing_of(world: &SessionWorld, pending_counts: bool) -> (standing: (
    PeerRole,
    Option<u128>,
))
    ensures
        standing == self::standing(world.lobbies@, pending_counts),
{
    match world.first_of(LobbyKind::Client) {
        Some(lobby) => (PeerRole::Client, lobby.host_uuid),
        None => {
            let mut i: usize = 0;
            while i < world.lobbies.len()
                invariant
                    i <= world.lobbies@.len(),
                    forall|j: int|
                        0 <= j < i ==> !((#[trigger] world.lobbies@[j]).hosted && (pending_counts
                            || !world.lobbies@[j].pending)),
                    world::first_lobby(world.lobbies@, world::client_lobby()) is None,
                decreases world.lobbies.len() - i,
            {
                if world.lobbies[i].hosted && (pending_counts || !world.lobbies[i].pending) {
                    return (PeerRole::Host, None);
                }
                i += 1;
            }
            (PeerRole::Unattached, None)
        },
    }
}

/// Whether an SDP offer from `from` should be answered.
///
/// A client answers its host and nobody else: the host is always the offerer, so an offer from
/// another lobby member is that member trying to become the peer this client talks to — its
/// "host" in every way that matters — and answering it would hand the session over. A host never
/// legitimately receives an offer for the same reason, and with no lobby there is nothing to be
/// joining.
pub fn accept_offer_from(role: PeerRole, host: Option<u128>, from: u128) -> (accept: bool)
    ensures
        accept == answers(role, host, from),
{
    match role {
        PeerRole::Client => match host {
            Some(host) => host == from,
            None => false,
        },
        PeerRole::Host | PeerRole::Unattached => false,
    }
}

/// Whether an offer from `from` is answered.
pub open spec fn answers(role: PeerRole, host: Option<u128>, from: u128) -> bool {
    role == PeerRole::Client && host == Some(from)
}

/// Whether a data-channel packet from `from` should be decoded at all.
///
/// A client reads its host only. A host reads the peers the signalling server told it joined —
/// the ones it holds a seat for — which is what `known_clients` is. Anything else is a connection
/// that should not exist, and the safe thing to do with its traffic is nothing.
pub fn accept_packet_from(
    role: PeerRole,
    host: Option<u128>,
    known_clients: &[u128],
    from: u128,
) -> (accept: bool)
    ensures
        accept == reads(role, host, known_clients@, from),
{
    match role {
        PeerRole::Client => match host {
            Some(host) => host == from,
            None => false,
        },
        PeerRole::Host => {
            let mut i: usize = 0;
            while i < known_clients.len()
                invariant
                    role == PeerRole::Host,
                    i <= known_clients@.len(),
                    forall|j: int| 0 <= j < i ==> known_clients@[j] != from,
                decreases known_clients.len() - i,
            {
                if known_clients[i] == from {
                    return true;
                }
                i += 1;
            }
            false
        },
        PeerRole::Unattached => false,
    }
}

/// Whether a packet from `from` is read.
pub open spec fn reads(
    role: PeerRole,
    host: Option<u128>,
    known_clients: Seq<u128>,
    from: u128,
) -> bool {
    match role {
        PeerRole::Client => host == Some(from),
        PeerRole::Host => known_clients.contains(from),
        PeerRole::Unattached => false,
    }
}

/// Whether a peer going away ends a client's session.
///
/// Only the host's does. Another peer's disconnect is not this client's business: it never
/// connected to them on purpose.
pub fn client_session_ends_with(host: Option<u128>, peer: u128) -> (ends: bool)
    ensures
        ends == (host == Some(peer)),
{
    match host {
        Some(host) => host == peer,
        None => false,
    }
}

/// Whether a seat being removed is its player being removed from a session that goes on — a
/// kick, a timeout, a refused protocol — rather than the seat going with the host's own lobby.
///
/// Only the first is news to the player. When the host leaves, its lobby goes first and the
/// seats follow it, so by the time a seat's removal is seen the lobby is already gone.
pub fn seat_removal_is_a_kick(seat_of: Option<u64>, world: &SessionWorld) -> (kick: bool)
    ensures
        kick == is_a_kick(seat_of, world.lobbies@),
{
    let lobby: u64 = match seat_of {
        Some(lobby) => lobby,
        None => return false,
    };
    let mut i: usize = 0;
    while i < world.lobbies.len()
        invariant
            i <= world.lobbies@.len(),
            seat_of == Some(lobby),
            forall|j: int| 0 <= j < i ==> !is_hosted_as(#[trigger] world.lobbies@[j], lobby),
        decreases world.lobbies.len() - i,
    {
        if world.lobbies[i].entity == lobby && world.lobbies[i].hosted
            && !world.lobbies[i].pending {
            assert(is_hosted_as(world.lobbies@[i as int], lobby));
            return true;
        }
        i += 1;
    }
    false
}

/// Whether `lobby` is an active hosted lobby under the name `entity`.
pub open spec fn is_hosted_as(lobby: LobbyEntity, entity: u64) -> bool {
    lobby.entity == entity && lobby.hosted && !lobby.pending
}

/// Whether removing a seat of `seat_of` is a kick: its lobby still stands, and is hosted here.
pub open spec fn is_a_kick(seat_of: Option<u64>, lobbies: Seq<LobbyEntity>) -> bool {
    seat_of matches Some(lobby) && exists|i: int|
        0 <= i < lobbies.len() && is_hosted_as(#[trigger] lobbies[i], lobby)
}

/// How many refused packets per peer are worth a loud line in the log.
///
/// Three is enough to notice and not enough to bury the log under a peer that keeps sending.
pub const UNTRUSTED_DROPS_LOGGED_LOUDLY: u32 = 3;

/// What becomes of a packet.
#[derive(Clone, Copy, Debug, PartialEq, Eq, Structural)]
pub enum PacketVerdict {
    /// It is decoded.
    Read,
    /// It is dropped: the `count`th from its sender. `loud` says whether that is worth a line.
    Drop { count: u32, loud: bool },
}

/// Packets dropped because their sender was not trusted, per sender.
pub struct UntrustedPacketDrops {
    counts: HashMap<u128, u32>,
}

impl View for UntrustedPacketDrops {
    type V = Map<u128, u32>;

    closed spec fn view(&self) -> Map<u128, u32> {
        self.counts@
    }
}

/// How many packets of a sender were dropped.
pub open spec fn dropped(counts: Map<u128, u32>, sender: u128) -> int {
    if counts.contains_key(sender) {
        counts[sender] as int
    } else {
        0
    }
}

/// The seats' peers, in order.
pub open spec fn seat_peers(seats: Seq<SeatEntity>) -> Seq<u128> {
    seats.map_values(|seat: SeatEntity| seat.webrtc_uuid)
}

/// Whether a session as it stands reads a packet from `sender`.
pub open spec fn session_reads(
    lobbies: Seq<LobbyEntity>,
    seats: Seq<SeatEntity>,
    sender: u128,
) -> bool {
    let (role, host) = standing(lobbies, false);
    reads(role, host, seat_peers(seats), sender)
}

/// The counts after packets from `senders`, in order.
pub open spec fn counted(
    counts: Map<u128, u32>,
    lobbies: Seq<LobbyEntity>,
    seats: Seq<SeatEntity>,
    senders: Seq<u128>,
) -> Map<u128, u32>
    decreases senders.len(),
{
    if senders.len() == 0 {
        counts
    } else {
        let before = counted(counts, lobbies, seats, senders.drop_last());
        if session_reads(lobbies, seats, senders.last()) {
            before
        } else {
            before.insert(senders.last(), (dropped(before, senders.last()) + 1) as u32)
        }
    }
}

/// What becomes of a packet from `sender` when `counts` were dropped before.
pub open spec fn verdict(
    counts: Map<u128, u32>,
    lobbies: Seq<LobbyEntity>,
    seats: Seq<SeatEntity>,
    sender: u128,
) -> PacketVerdict {
    if session_reads(lobbies, seats, sender) {
        PacketVerdict::Read
    } else {
        let count = (dropped(counts, sender) + 1) as u32;
        PacketVerdict::Drop { count, loud: count <= UNTRUSTED_DROPS_LOGGED_LOUDLY }
    }
}

proof fn lemma_counted_grows(
    counts: Map<u128, u32>,
    lobbies: Seq<LobbyEntity>,
    seats: Seq<SeatEntity>,
    senders: Seq<u128>,
    room: int,
    sender: u128,
)
    requires
        forall|other: u128| dropped(counts, other) <= room,
        room + senders.len() <= u32::MAX,
    ensures
        dropped(counted(counts, lobbies, seats, senders), sender) <= room + senders.len(),
    decreases senders.len(),
{
    if senders.len() > 0 {
        lemma_counted_grows(counts, lobbies, seats, senders.drop_last(), room, sender);
        lemma_counted_grows(counts, lobbies, seats, senders.drop_last(), room, senders.last());
    }
}

impl UntrustedPacketDrops {
    /// Nothing was dropped.
    pub fn new() -> (drops: Self)
        ensures
            drops@ == Map::<u128, u32>::empty(),
    {
        UntrustedPacketDrops { counts: HashMap::new() }
    }

    /// Sort out the packets that arrived from `senders`, in order.
    pub fn judge_packets(&mut self, world: &SessionWorld, senders: &Vec<u128>) -> (verdicts: Vec<
        PacketVerdict,
    >)
        requires
            forall|sender: u128|
                #[trigger] dropped(old(self)@, sender) + senders@.len() <= u32::MAX,
        ensures
            final(self)@ == counted(old(self)@, world.lobbies@, world.seats@, senders@),
            verdicts@.len() == senders@.len(),
            forall|i: int|
                0 <= i < senders@.len() ==> #[trigger] verdicts@[i] == verdict(
                    counted(old(self)@, world.lobbies@, world.seats@, senders@.take(i)),
                    world.lobbies@,
                    world.seats@,
                    senders@[i],
                ),
    {
        let (role, host) = standing_of(world, false);
        let mut known_clients: Vec<u128> = Vec::new();
        let mut i: usize = 0;
        while i < world.seats.len()
            invariant
                i <= world.seats@.len(),
                known_clients@ =~= seat_peers(world.seats@.take(i as int)),
            decreases world.seats.len() - i,
        {
            known_clients.push(world.seats[i].webrtc_uuid);
            i += 1;
        }
        assert(world.seats@.take(i as int) =~= world.seats@);

        let mut verdicts: Vec<PacketVerdict> = Vec::new();
        let mut i: usize = 0;
        assert(senders@.take(0) =~= Seq::<u128>::empty());
        while i < senders.len()
            invariant
                i <= senders@.len(),
                (role, host) == standing(world.lobbies@, false),
                known_clients@ == seat_peers(world.seats@),
                forall|sender: u128|
                    #[trigger] dropped(old(self)@, sender) + senders@.len() <= u32::MAX,
                self@ == counted(
                    old(self)@,
                    world.lobbies@,
                    world.seats@,
                    senders@.take(i as int),
                ),
                verdicts@.len() == i,
                forall|j: int|
                    0 <= j < i ==> #[trigger] verdicts@[j] == verdict(
                        counted(old(self)@, world.lobbies@, world.seats@, senders@.take(j)),
                        world.lobbies@,
                        world.seats@,
                        senders@[j],
                    ),
            decreases senders.len() - i,
        {
            let sender: u128 = senders[i];
            proof {
                assert(senders@.take(i + 1).drop_last() =~= senders@.take(i as int));
                lemma_counted_grows(
                    old(self)@,
                    world.lobbies@,
                    world.seats@,
                    senders@.take(i as int),
                    u32::MAX - senders@.len(),
                    sender,
                );
            }
            if accept_packet_from(role, host, known_clients.as_slice(), sender) {
                verdicts.push(PacketVerdict::Read);
            } else {
                let before: u32 = match self.counts.get(&sender) {
                    Some(count) => *count,
                    None => 0,
                };
                let count: u32 = before + 1;
                self.counts.insert(sender, count);
                verdicts.push(
                    PacketVerdict::Drop { count, loud: count <= UNTRUSTED_DROPS_LOGGED_LOUDLY },
                );
            }
            i += 1;
        }
        assert(senders@.take(i as int) =~= senders@);
        verdicts
    }
}

/// A client reads no one but its host, whoever else is connected.
pub proof fn law_a_client_reads_its_host_alone(
    lobbies: Seq<LobbyEntity>,
    seats: Seq<SeatEntity>,
    sender: u128,
)
    requires
        standing(lobbies, false).0 == PeerRole::Client,
    ensures
        session_reads(lobbies, seats, sender) <==> standing(lobbies, false).1 == Some(sender),
{
}

/// Whoever's offer is answered is read as well: a connection that this side opened is one it
/// listens to.
pub proof fn law_whoever_is_answered_is_read(
    lobbies: Seq<LobbyEntity>,
    seats: Seq<SeatEntity>,
    sender: u128,
)
    requires
        answers(standing(lobbies, true).0, standing(lobbies, true).1, sender),
    ensures
        session_reads(lobbies, seats, sender),
{
}

/// Without a lobby nobody is answered and nobody is read.
pub proof fn law_no_lobby_no_trust(seats: Seq<SeatEntity>, sender: u128)
    ensures
        !answers(
            standing(Seq::empty(), true).0,
            standing(Seq::empty(), true).1,
            sender,
        ),
        !session_reads(Seq::empty(), seats, sender),
{
    reveal(Seq::filter);
}

/// A guest answers and reads the host of the first lobby that it is in or is joining, and nobody
/// else, whatever lobbies it hosts and whoever has a seat; before it knows its host, it answers and
/// reads nobody.
pub proof fn law_a_guest_trusts_its_host_alone(
    lobbies: Seq<LobbyEntity>,
    seats: Seq<SeatEntity>,
    sender: u128,
    i: int,
)
    requires
        0 <= i < lobbies.len(),
        !lobbies[i].hosted,
        forall|j: int| 0 <= j < i ==> (#[trigger] lobbies[j]).hosted,
    ensures
        session_reads(lobbies, seats, sender) == (lobbies[i].host_uuid == Some(sender)),
        answers(standing(lobbies, true).0, standing(lobbies, true).1, sender) == (
        lobbies[i].host_uuid == Some(sender)),
{
    let before = lobbies.take(i);
    assert forall|j: int| 0 <= j < before.len() implies !(world::client_lobby())(
        #[trigger] before[j],
    ) by {
        assert(before[j] == lobbies[j]);
    }
    lists::lemma_none_kept(before, world::client_lobby());
    lists::lemma_first_of_filter(lobbies, i, world::client_lobby());
}

/// A peer that is nobody's guest answers no offer. It reads exactly those that have a seat, once
/// one of its lobbies is active, and nobody before that.
pub proof fn law_a_host_reads_its_seats(
    lobbies: Seq<LobbyEntity>,
    seats: Seq<SeatEntity>,
    sender: u128,
)
    requires
        forall|i: int| 0 <= i < lobbies.len() ==> (#[trigger] lobbies[i]).hosted,
    ensures
        session_reads(lobbies, seats, sender) == {
            &&& exists|i: int| 0 <= i < lobbies.len() && !(#[trigger] lobbies[i]).pending
            &&& exists|j: int| 0 <= j < seats.len() && (#[trigger] seats[j]).webrtc_uuid == sender
        },
        !answers(standing(lobbies, true).0, standing(lobbies, true).1, sender),
{
    lists::lemma_none_kept(lobbies, world::client_lobby());
    let peers = seat_peers(seats);
    if peers.contains(sender) {
        let j = choose|j: int| 0 <= j < peers.len() && peers[j] == sender;
        assert(seats[j].webrtc_uuid == sender);
    }
    assert forall|j: int| 0 <= j < seats.len() && (#[trigger] seats[j]).webrtc_uuid
        == sender implies peers.contains(sender) by {
        assert(peers[j] == sender);
    }
    if exists|i: int| 0 <= i < lobbies.len() && !(#[trigger] lobbies[i]).pending {
        let i = choose|i: int| 0 <= i < lobbies.len() && !(#[trigger] lobbies[i]).pending;
        assert(lobbies[i].hosted && !lobbies[i].pending);
    }
}

/// How often `sender` is among `senders`.
pub open spec fn times(senders: Seq<u128>, sender: u128) -> int
    decreases senders.len(),
{
    if senders.len() == 0 {
        0
    } else {
        times(senders.drop_last(), sender) + if senders.last() == sender {
            1int
        } else {
            0int
        }
    }
}

/// Every packet of a peer that is not trusted is counted against it, and none of one that is. The
/// first three are loud.
pub proof fn law_every_refused_packet_is_counted(
    counts: Map<u128, u32>,
    lobbies: Seq<LobbyEntity>,
    seats: Seq<SeatEntity>,
    senders: Seq<u128>,
    sender: u128,
)
    requires
        forall|other: u128| #[trigger] dropped(counts, other) + senders.len() < u32::MAX,
    ensures
        ({
            let after = counted(counts, lobbies, seats, senders);
            let was = if counts.contains_key(sender) {
                counts[sender] as int
            } else {
                0
            };
            let is = if after.contains_key(sender) {
                after[sender] as int
            } else {
                0
            };
            let next = verdict(after, lobbies, seats, sender);
            if session_reads(lobbies, seats, sender) {
                is == was && next == PacketVerdict::Read
            } else {
                &&& is == was + times(senders, sender)
                &&& next is Drop
                &&& next->count == is + 1
                &&& next->loud == (next->count <= 3)
            }
        }),
    decreases senders.len(),
{
    assert(dropped(counts, sender) + senders.len() < u32::MAX);
    lemma_times_are_bounded(senders, sender);
    if senders.len() > 0 {
        let before = senders.drop_last();
        assert forall|other: u128| #[trigger] dropped(counts, other) + before.len() < u32::MAX by {
            assert(dropped(counts, other) + senders.len() < u32::MAX);
        }
        law_every_refused_packet_is_counted(counts, lobbies, seats, before, sender);
        law_every_refused_packet_is_counted(counts, lobbies, seats, before, senders.last());
    }
}

proof fn lemma_times_are_bounded(senders: Seq<u128>, sender: u128)
    ensures
        0 <= times(senders, sender) <= senders.len(),
    decreases senders.len(),
{
    if senders.len() > 0 {
        lemma_times_are_bounded(senders.drop_last(), sender);
    }
}

/// A seat's removal is a kick exactly when the seat's lobby is still there, active and hosted here.
pub proof fn law_a_kick_leaves_the_lobby(seat_of: Option<u64>, lobbies: Seq<LobbyEntity>)
    ensures
        is_a_kick(seat_of, lobbies) == (seat_of is Some && exists|i: int|
            0 <= i < lobbies.len() && (#[trigger] lobbies[i]).entity == seat_of->0
                && lobbies[i].hosted && !lobbies[i].pending),
{
    assert(forall|i: int|
        0 <= i < lobbies.len() && seat_of is Some ==> is_hosted_as(#[trigger] lobbies[i], seat_of->0)
            == (lobbies[i].entity == seat_of->0 && lobbies[i].hosted && !lobbies[i].pending));
}

} // verus!
