//! How long the way to a peer and back takes.
//!
//! Both ends ping every peer they are connected to once a second. A pong echoes the time the ping
//! was sent at, on the clock of whoever sent it.

use vstd::prelude::*;

use super::world;
use super::world::{LobbyEntity, LobbyKind, SeatEntity, SessionWorld};
use crate::lists;

verus! {

/// How often peers are pinged, in nanoseconds.
pub const PING_INTERVAL: u64 = 1_000_000_000;

/// When the next pings go out.
#[derive(Debug, Clone, Copy, PartialEq, Eq)]
pub struct PingTimer {
    /// How long until then, in nanoseconds.
    pub cooldown: u64,
}

/// What is left of `cooldown` after a frame of `elapsed` nanoseconds: it starts anew when it has
/// run out.
pub open spec fn cooldown_after(cooldown: u64, elapsed: u64) -> u64 {
    if cooldown <= elapsed {
        PING_INTERVAL
    } else {
        (cooldown - elapsed) as u64
    }
}

impl PingTimer {
    /// The first pings go out at once.
    pub fn new() -> (timer: Self)
        ensures
            timer.cooldown == 0,
    {
        PingTimer { cooldown: 0 }
    }

    /// A frame of `elapsed` nanoseconds passed: whether pings go out. The timer runs without a
    /// lobby as well.
    pub fn tick(&mut self, has_lobby: bool, elapsed: u64) -> (send: bool)
        ensures
            send == (has_lobby && old(self).cooldown <= elapsed),
            final(self).cooldown == cooldown_after(old(self).cooldown, elapsed),
    {
        if self.cooldown > elapsed {
            self.cooldown = self.cooldown - elapsed;
            return false;
        }
        self.cooldown = PING_INTERVAL;
        has_lobby
    }
}

/// A ping to be sent.
#[derive(Debug, Clone, Copy, PartialEq, Eq)]
pub struct OutgoingPing {
    pub to: u128,
    /// When it is sent, on this peer's clock.
    pub sent_at: u64,
}

/// The pings that go out in a frame of `elapsed` nanoseconds that began at `now`.
pub open spec fn pings_due(
    lobbies: Seq<LobbyEntity>,
    connected: Seq<u128>,
    cooldown: u64,
    now: u64,
    elapsed: u64,
) -> Seq<OutgoingPing> {
    if lobbies.len() > 0 && cooldown <= elapsed {
        connected.map_values(|to: u128| OutgoingPing { to, sent_at: now })
    } else {
        Seq::empty()
    }
}

/// The pings that go out in a frame of `elapsed` nanoseconds that began at `now`: one to every peer
/// this one is connected to, from a host and from a client, as soon as there is a lobby, pending or
/// not.
pub fn send_pings(
    timer: &mut PingTimer,
    world: &SessionWorld,
    connected: &Vec<u128>,
    now: u64,
    elapsed: u64,
) -> (pings: Vec<OutgoingPing>)
    ensures
        pings@ == pings_due(world.lobbies@, connected@, old(timer).cooldown, now, elapsed),
        final(timer).cooldown == cooldown_after(old(timer).cooldown, elapsed),
{
    let mut pings: Vec<OutgoingPing> = Vec::new();
    if timer.tick(world.lobbies.len() > 0, elapsed) {
        let mut i: usize = 0;
        while i < connected.len()
            invariant
                i <= connected@.len(),
                pings@ =~= connected@.take(i as int).map_values(
                    |to: u128| OutgoingPing { to, sent_at: now },
                ),
            decreases connected.len() - i,
        {
            pings.push(OutgoingPing { to: connected[i], sent_at: now });
            i += 1;
        }
        assert(connected@.take(i as int) =~= connected@);
    }
    pings
}

/// Whose time is noted when a pong arrives from `sender`: on a host the seat of that peer, on a
/// client the lobby, if there is exactly one.
pub open spec fn pong_entities(
    lobbies: Seq<LobbyEntity>,
    seats: Seq<SeatEntity>,
    sender: u128,
) -> Seq<u64> {
    let seat = seats.filter(connected_at(sender));
    let joined = lobbies.filter(world::active_client_lobby());
    (if world::single_hosted(lobbies) is Some && seat.len() > 0 {
        seq![seat[0].entity]
    } else {
        Seq::empty()
    }) + (if joined.len() == 1 {
        seq![joined[0].entity]
    } else {
        Seq::empty()
    })
}

/// A seat of the connected player at `peer`.
pub open spec fn connected_at(peer: u128) -> spec_fn(SeatEntity) -> bool {
    |seat: SeatEntity| !seat.pending && seat.webrtc_uuid == peer
}

fn find_connected(seats: &Vec<SeatEntity>, peer: u128) -> (seat: Option<u64>)
    ensures
        seat == if seats@.filter(connected_at(peer)).len() > 0 {
            Some(seats@.filter(connected_at(peer))[0].entity)
        } else {
            None
        },
{
    let mut i: usize = 0;
    proof {
        reveal(Seq::filter);
    }
    while i < seats.len()
        invariant
            i <= seats@.len(),
            seats@.take(i as int).filter(connected_at(peer)).len() == 0,
        decreases seats.len() - i,
    {
        proof {
            reveal(Seq::filter);
            assert(seats@.take(i + 1).drop_last() =~= seats@.take(i as int));
        }
        if !seats[i].pending && seats[i].webrtc_uuid == peer {
            proof {
                lists::lemma_first_of_filter(seats@, i as int, connected_at(peer));
            }
            return Some(seats[i].entity);
        }
        i += 1;
    }
    assert(seats@.take(i as int) =~= seats@);
    None
}

/// A time there and back: what the last one and this one come to. The last counts four times as
/// much; what is below a nanosecond is dropped.
pub open spec fn smoothed(previous: Option<u64>, rtt: u64) -> u64 {
    match previous {
        Some(previous) => ((4 * previous + rtt) / 5) as u64,
        None => rtt,
    }
}

/// What the last time there and back and this one come to.
pub fn smooth(previous: Option<u64>, rtt: u64) -> (time: u64)
    ensures
        time == smoothed(previous, rtt),
{
    match previous {
        Some(previous) => {
            let sum: u128 = 4 * (previous as u128) + rtt as u128;
            assert(sum / 5 <= u64::MAX);
            (sum / 5) as u64
        },
        None => rtt,
    }
}

/// A pong from `sender` to a ping sent at `sent_at`: the time it took, and whose it is. Nothing
/// comes of one that was answered before it was sent, nor of one of this peer's own.
pub fn receive_pong(world: &SessionWorld, sender: Option<u128>, sent_at: u64, now: u64) -> (pong:
    Option<(u64, Vec<u64>)>)
    ensures
        match pong {
            Some((rtt, entities)) => {
                &&& sent_at <= now
                &&& sender is Some
                &&& rtt == now - sent_at
                &&& entities@ == pong_entities(world.lobbies@, world.seats@, sender->0)
            },
            None => now < sent_at || sender is None,
        },
{
    if now < sent_at {
        return None;
    }
    let sender: u128 = match sender {
        Some(sender) => sender,
        None => return None,
    };
    let mut entities: Vec<u64> = Vec::new();
    if world.single_hosted().is_some() {
        if let Some(seat) = find_connected(&world.seats, sender) {
            entities.push(seat);
        }
    }
    let joined = world.lobbies_of(LobbyKind::ActiveClient);
    if joined.len() == 1 {
        entities.push(joined[0].entity);
    }
    assert(entities@ =~= pong_entities(world.lobbies@, world.seats@, sender));
    Some((now - sent_at, entities))
}

/// A ping or a pong, as it arrived.
#[derive(Debug, Clone, Copy, PartialEq, Eq)]
pub struct ReceivedEcho {
    /// Who sent it; nobody if it is this peer's own.
    pub sender: Option<u128>,
    /// When the ping was sent, on the clock of whoever sent it.
    pub sent_at: u64,
}

/// The pong that answers a ping.
#[derive(Debug, Clone, Copy, PartialEq, Eq)]
pub struct PongReply {
    pub to: u128,
    /// The time the ping was sent at, unchanged.
    pub sent_at: u64,
}

/// The pongs that answer `pings`, in order: none answers one of this peer's own.
pub open spec fn pongs_for(pings: Seq<ReceivedEcho>) -> Seq<PongReply>
    decreases pings.len(),
{
    if pings.len() == 0 {
        Seq::empty()
    } else {
        let earlier = pongs_for(pings.drop_last());
        match pings.last().sender {
            Some(to) => earlier.push(PongReply { to, sent_at: pings.last().sent_at }),
            None => earlier,
        }
    }
}

/// Echo every ping back to whoever sent it.
pub fn respond_to_pings(pings: &Vec<ReceivedEcho>) -> (pongs: Vec<PongReply>)
    ensures
        pongs@ == pongs_for(pings@),
{
    let mut pongs: Vec<PongReply> = Vec::new();
    let mut i: usize = 0;
    assert(pings@.take(0) =~= Seq::<ReceivedEcho>::empty());
    while i < pings.len()
        invariant
            i <= pings@.len(),
            pongs@ == pongs_for(pings@.take(i as int)),
        decreases pings.len() - i,
    {
        assert(pings@.take(i + 1).drop_last() =~= pings@.take(i as int));
        if let Some(to) = pings[i].sender {
            pongs.push(PongReply { to, sent_at: pings[i].sent_at });
        }
        i += 1;
    }
    assert(pings@.take(i as int) =~= pings@);
    pongs
}

/// The round trip to a connected peer, in nanoseconds: a seat's on the host, the lobby's on a
/// client.
#[derive(Debug, Clone, Copy, PartialEq, Eq)]
pub struct PeerRtt {
    pub entity: u64,
    pub nanos: u64,
}

/// The round trip that is known of `entity`.
pub open spec fn known_rtt(known: Seq<PeerRtt>, entity: u64) -> Option<u64>
    decreases known.len(),
{
    if known.len() == 0 {
        None
    } else if known[0].entity == entity {
        Some(known[0].nanos)
    } else {
        known_rtt(known.drop_first(), entity)
    }
}

fn find_rtt(known: &Vec<PeerRtt>, entity: u64) -> (nanos: Option<u64>)
    ensures
        nanos == known_rtt(known@, entity),
{
    let mut i: usize = 0;
    assert(known@.skip(0) =~= known@);
    while i < known.len()
        invariant
            i <= known@.len(),
            known_rtt(known@.skip(i as int), entity) == known_rtt(known@, entity),
        decreases known.len() - i,
    {
        assert(known@.skip(i as int).drop_first() =~= known@.skip(i + 1));
        if known[i].entity == entity {
            return Some(known[i].nanos);
        }
        i += 1;
    }
    None
}

/// What one pong makes of the round trips that were known when the frame began.
pub open spec fn rtts_after(
    lobbies: Seq<LobbyEntity>,
    seats: Seq<SeatEntity>,
    known: Seq<PeerRtt>,
    pong: ReceivedEcho,
    now: u64,
) -> Seq<PeerRtt> {
    match pong.sender {
        Some(sender) if pong.sent_at <= now => {
            let entities = pong_entities(lobbies, seats, sender);
            Seq::new(
                entities.len(),
                |i: int|
                    PeerRtt {
                        entity: entities[i],
                        nanos: smoothed(
                            known_rtt(known, entities[i]),
                            (now - pong.sent_at) as u64,
                        ),
                    },
            )
        },
        _ => Seq::empty(),
    }
}

/// What all of `pongs` make of them, in order.
pub open spec fn all_rtts_after(
    lobbies: Seq<LobbyEntity>,
    seats: Seq<SeatEntity>,
    known: Seq<PeerRtt>,
    pongs: Seq<ReceivedEcho>,
    now: u64,
) -> Seq<PeerRtt>
    decreases pongs.len(),
{
    if pongs.len() == 0 {
        Seq::empty()
    } else {
        all_rtts_after(lobbies, seats, known, pongs.drop_last(), now) + rtts_after(
            lobbies,
            seats,
            known,
            pongs.last(),
            now,
        )
    }
}

/// The pongs of a frame: the round trips they make, in order. Of two for one entity the later
/// stands, and each is smoothed with what was known when the frame began.
pub fn receive_pongs(
    world: &SessionWorld,
    known: &Vec<PeerRtt>,
    pongs: &Vec<ReceivedEcho>,
    now: u64,
) -> (updates: Vec<PeerRtt>)
    ensures
        updates@ == all_rtts_after(world.lobbies@, world.seats@, known@, pongs@, now),
{
    let mut updates: Vec<PeerRtt> = Vec::new();
    let mut i: usize = 0;
    assert(pongs@.take(0) =~= Seq::<ReceivedEcho>::empty());
    while i < pongs.len()
        invariant
            i <= pongs@.len(),
            updates@ == all_rtts_after(
                world.lobbies@,
                world.seats@,
                known@,
                pongs@.take(i as int),
                now,
            ),
        decreases pongs.len() - i,
    {
        assert(pongs@.take(i + 1).drop_last() =~= pongs@.take(i as int));
        let ghost before = updates@;
        let ghost made = rtts_after(world.lobbies@, world.seats@, known@, pongs@[i as int], now);
        if let Some((rtt, entities)) = receive_pong(world, pongs[i].sender, pongs[i].sent_at, now) {
            let mut j: usize = 0;
            assert(made.take(0) =~= Seq::<PeerRtt>::empty());
            assert(updates@ =~= before + made.take(0));
            while j < entities.len()
                invariant
                    j <= entities@.len(),
                    made.len() == entities@.len(),
                    forall|k: int|
                        0 <= k < made.len() ==> #[trigger] made[k] == (PeerRtt {
                            entity: entities@[k],
                            nanos: smoothed(known_rtt(known@, entities@[k]), rtt),
                        }),
                    updates@ == before + made.take(j as int),
                decreases entities.len() - j,
            {
                let nanos = smooth(find_rtt(known, entities[j]), rtt);
                updates.push(PeerRtt { entity: entities[j], nanos });
                assert(made[j as int].nanos == nanos);
                assert(updates@ =~= before + made.take(j + 1));
                j += 1;
            }
            assert(made.take(j as int) =~= made);
        } else {
            assert(updates@ =~= before + made);
        }
        i += 1;
    }
    assert(pongs@.take(i as int) =~= pongs@);
    updates
}

/// A smoothed time lies between the last one and this one.
pub proof fn law_smoothing_stays_between(previous: u64, rtt: u64)
    ensures
        previous <= rtt ==> previous <= smoothed(Some(previous), rtt) <= rtt,
        rtt <= previous ==> rtt <= smoothed(Some(previous), rtt) <= previous,
{
}

/// A peer that answers every ping gets its own time back: a ping sent at `sent_at` comes back as a
/// pong that was sent at `sent_at`.
pub proof fn law_a_pong_echoes_its_ping(pings: Seq<ReceivedEcho>, i: int)
    requires
        0 <= i < pongs_for(pings).len(),
    ensures
        pings.contains(
            ReceivedEcho {
                sender: Some(pongs_for(pings)[i].to),
                sent_at: pongs_for(pings)[i].sent_at,
            },
        ),
    decreases pings.len(),
{
    if pings.len() > 0 {
        let earlier = pings.drop_last();
        let reply = pongs_for(pings)[i];
        let ping = ReceivedEcho { sender: Some(reply.to), sent_at: reply.sent_at };
        if i < pongs_for(earlier).len() {
            law_a_pong_echoes_its_ping(earlier, i);
            let k = choose|k: int| 0 <= k < earlier.len() && earlier[k] == ping;
            assert(pings[k] == ping);
        } else {
            assert(pings[pings.len() - 1] == ping);
        }
    }
}

} // verus!
