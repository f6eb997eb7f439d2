//! The harness bites.
//!
//! Every test that runs two peers over the loopback network takes for granted that the network
//! does what it says: one step is one frame, packets cross, reliable is reliable, the knobs do
//! what they are named for. This is the suite to read when such a test does something surprising.

use ensemble::loopback::corruption::Corruption;
use ensemble::loopback::link::{duration_to_frames, Link};
use ensemble::loopback::network::LoopbackNetwork;
use ensemble::loopback::packet::{PacketFate, PeerId, SentPacket};
use ensemble::loopback::rng::{Probability, SeededRng, UNITS};
use ensemble::transport::SendMode;

/// 15.625 ms, in nanoseconds.
const FRAME: u64 = 15_625_000;

/// What tells a ping from anything else on the wire.
const INDEX: [u8; 2] = [1, 0];

fn likely(probability: f64) -> Probability {
    Probability((probability * UNITS as f64).ceil() as u32)
}

/// A number as a varint.
fn varint(mut value: u32) -> Vec<u8> {
    let mut bytes = Vec::new();
    while value >= 0x80 {
        bytes.push((value & 0x7F) as u8 | 0x80);
        value >>= 7;
    }
    bytes.push(value as u8);
    bytes
}

fn ping(value: u32) -> Vec<u8> {
    let mut bytes = INDEX.to_vec();
    bytes.extend(varint(value));
    bytes
}

fn decode(bytes: &[u8]) -> Option<u32> {
    let body = bytes.strip_prefix(&INDEX)?;
    let mut value: u32 = 0;
    for (i, byte) in body.iter().enumerate() {
        if i > 4 {
            return None;
        }
        value |= ((byte & 0x7F) as u32).checked_shl(7 * i as u32)?;
        if byte & 0x80 == 0 {
            return Some(value);
        }
    }
    None
}

/// A network, and everything each peer has read off it.
struct Rig {
    net: LoopbackNetwork,
    received: Vec<Vec<(u128, u32)>>,
}

impl Rig {
    fn new(net: LoopbackNetwork) -> Self {
        let received = net.peers().iter().map(|_| Vec::new()).collect();
        Rig { net, received }
    }

    /// One frame, in which only `running` read what arrived.
    fn step_only(&mut self, running: &[PeerId]) {
        self.net.advance(1);
        for peer in running {
            for packet in self.net.take_inbox(*peer) {
                if let Some(value) = decode(&packet.bytes) {
                    self.received[peer.0].push((packet.sender, value));
                }
            }
        }
        self.net.collect_outbound();
    }

    fn step(&mut self) {
        let peers = self.net.peers();
        self.step_only(&peers);
    }

    fn run(&mut self, frames: u64) {
        for _ in 0..frames {
            self.step();
        }
    }

    fn send(&mut self, from: PeerId, to: PeerId, value: u32, mode: SendMode) {
        let target = if self.net.host() == from {
            // A host addresses a client; find the one that stands for `to`.
            let uuid = self.net.uuid(to);
            self.net
                .clients(from)
                .iter()
                .find(|client| client.uuid == uuid)
                .expect("the host has a client for this peer")
                .entity
        } else {
            self.net.lobby(from).entity
        };
        self.net.send(from, target, ping(value), mode);
    }

    fn values(&self, peer: PeerId) -> Vec<u32> {
        self.received[peer.0].iter().map(|(_, value)| *value).collect()
    }

    /// The traced packets that carry a ping from `from` to `to`.
    fn pings(&self, from: PeerId, to: PeerId) -> Vec<&SentPacket> {
        self.net
            .trace()
            .iter()
            .filter(|p| p.from == from && p.to == to && p.bytes.starts_with(&INDEX))
            .collect()
    }

    fn lobby_clients(&self, host: PeerId) -> usize {
        self.net.clients(host).len()
    }

    fn in_lobby(&self, peer: PeerId) -> bool {
        self.net.try_lobby(peer).is_some_and(|lobby| !lobby.pending)
    }
}

/// A host and one client, both attached and connected.
fn pair() -> (Rig, PeerId, PeerId) {
    let mut net = LoopbackNetwork::new(FRAME);
    let host = net.add_host(1);
    let client = net.add_client(2);
    (Rig::new(net), host, client)
}

#[test]
fn one_step_is_exactly_one_frame() {
    let (mut rig, _host, _client) = pair();
    assert_eq!(rig.net.frame(), 0);
    rig.step();
    rig.step();
    assert_eq!(rig.net.frame(), 2);
    assert_eq!(
        rig.net.frame_duration(),
        FRAME,
        "the app's clock must move by the frame the network models"
    );
}

#[test]
fn packets_actually_cross_the_link() {
    let (mut rig, host, client) = pair();
    rig.send(client, host, 7, SendMode::Reliable);
    rig.send(host, client, 9, SendMode::Reliable);
    rig.run(3);
    assert_eq!(rig.received[host.0], vec![(2, 7)], "the host hears the client, as the client");
    assert_eq!(rig.received[client.0], vec![(1, 9)], "the client hears the host, as the host");
}

#[test]
fn a_perfect_link_delivers_on_the_next_frame() {
    let (mut rig, host, client) = pair();
    rig.send(client, host, 1, SendMode::Reliable);
    // The packet is in the client's outbox; the step collects it and the next step delivers it.
    rig.step();
    assert!(rig.values(host).is_empty(), "nothing arrives on the frame it was sent");
    rig.step();
    assert_eq!(rig.values(host), vec![1]);
}

#[test]
fn an_unreliable_packet_can_be_duplicated() {
    let (mut rig, host, client) = pair();
    rig.net.set_link(Link::perfect().with_duplicate(likely(1.0)));
    rig.net.trace_packets(true);
    rig.send(client, host, 3, SendMode::Unreliable);
    rig.run(4);
    assert_eq!(rig.values(host), vec![3, 3], "delivered twice, one frame apart");
    assert!(matches!(rig.pings(client, host)[0].fate, PacketFate::Duplicated { .. }));
}

#[test]
fn an_unreliable_packet_can_be_reordered() {
    let (mut rig, host, client) = pair();
    rig.net.set_link(Link::perfect().with_reorder(likely(1.0)));
    rig.send(client, host, 1, SendMode::Unreliable);
    rig.send(client, host, 2, SendMode::Unreliable);
    rig.run(4);
    assert_eq!(rig.values(host), vec![2, 1], "the second overtook the first");
}

#[test]
fn a_reliable_packet_is_never_reordered_duplicated_or_lost() {
    let (mut rig, host, client) = pair();
    rig.net.set_link(
        Link::perfect()
            .with_reorder(likely(1.0))
            .with_duplicate(likely(1.0))
            .with_loss(likely(0.5))
            .with_jitter(100_000_000),
    );
    for value in 0..20 {
        rig.send(client, host, value, SendMode::Reliable);
        rig.step();
    }
    rig.run(60);
    assert_eq!(rig.values(host), (0..20).collect::<Vec<_>>());
}

#[test]
fn an_oversize_unreliable_packet_is_dropped_and_a_reliable_one_is_not() {
    let (mut rig, host, client) = pair();
    // A ping is 2 bytes of index plus a varint; 3 bytes is under, 2 is over.
    rig.net.set_link(Link::perfect().with_max_message_size(2));
    rig.net.trace_packets(true);
    rig.send(client, host, 1, SendMode::Unreliable);
    rig.send(client, host, 2, SendMode::Reliable);
    rig.run(3);
    assert_eq!(rig.values(host), vec![2]);
    let sent = rig.pings(client, host);
    assert_eq!(sent[0].fate, PacketFate::Oversize);
    assert!(sent[1].was_delivered());
}

#[test]
fn links_can_differ_per_direction() {
    let (mut rig, host, client) = pair();
    rig.net.set_link_pair(client, host, Link::perfect(), Link::delayed(FRAME * 10));
    rig.send(client, host, 1, SendMode::Reliable);
    rig.send(host, client, 2, SendMode::Reliable);
    rig.run(3);
    assert_eq!(rig.values(host), vec![1], "the uplink is instant");
    assert!(rig.values(client).is_empty(), "the downlink is ten frames long");
    rig.run(10);
    assert_eq!(rig.values(client), vec![2]);
}

#[test]
fn a_half_open_peer_receives_but_is_never_heard() {
    let (mut rig, host, client) = pair();
    rig.net.half_open(client);
    rig.net.trace_packets(true);
    rig.send(client, host, 1, SendMode::Reliable);
    rig.send(host, client, 2, SendMode::Reliable);
    rig.run(3);
    assert!(rig.values(host).is_empty());
    assert_eq!(rig.values(client), vec![2]);
    assert_eq!(rig.pings(client, host)[0].fate, PacketFate::Unreachable);
    assert_eq!(rig.lobby_clients(host), 1, "the transport has not noticed anything");

    rig.net.reconnect(client);
    rig.send(client, host, 3, SendMode::Reliable);
    rig.run(3);
    assert_eq!(rig.values(host), vec![3]);
}

#[test]
fn a_pending_client_is_not_in_the_roster_until_promoted() {
    let mut net = LoopbackNetwork::new(FRAME);
    let host = net.add_host(1);
    let client = net.add_pending_client(2);
    let mut rig = Rig::new(net);

    assert!(rig.net.is_pending(client));
    assert!(rig.net.lobby(client).pending);
    assert!(!rig.in_lobby(client));
    assert_eq!(rig.lobby_clients(host), 0, "the host has not been told");

    // The data channel is up before the join is finished: the client's packets already flow.
    rig.send(client, host, 1, SendMode::Reliable);
    rig.run(3);
    assert_eq!(rig.values(host), vec![1]);

    rig.net.promote(client);
    assert!(rig.net.is_connected(client));
    assert!(!rig.net.lobby(client).pending);
    assert!(rig.in_lobby(client));
    assert_eq!(rig.lobby_clients(host), 1);
    rig.send(host, client, 2, SendMode::Reliable);
    rig.run(3);
    assert_eq!(rig.values(client), vec![2]);
}

#[test]
fn the_local_id_can_be_withheld_and_granted_later() {
    let mut net = LoopbackNetwork::new(FRAME);
    let host = net.add_host(1);
    net.set_local_id(host, None);
    assert!(net.local_id(host).is_none());
    net.set_local_id(host, Some(42));
    assert_eq!(net.local_id(host), Some(42));
}

#[test]
fn a_peer_can_leave_and_rejoin_with_the_same_identity() {
    let (mut rig, host, client) = pair();
    rig.net.leave(client);
    assert!(rig.net.has_left(client));
    assert!(rig.net.try_lobby(client).is_none());
    assert!(!rig.in_lobby(client));
    assert_eq!(rig.lobby_clients(host), 0);

    rig.net.rejoin(client);
    assert!(rig.net.is_connected(client));
    assert!(rig.in_lobby(client));
    assert_eq!(rig.lobby_clients(host), 1);
    assert_eq!(rig.net.uuid(client), 2);
    rig.send(client, host, 5, SendMode::Reliable);
    rig.run(3);
    assert_eq!(rig.received[host.0], vec![(2, 5)]);
}

#[test]
fn rehosting_moves_the_lobby_and_everyone_has_to_rejoin() {
    let mut net = LoopbackNetwork::new(FRAME);
    let old_host = net.add_host(1);
    let a = net.add_client(2);
    let b = net.add_client(3);
    let mut rig = Rig::new(net);
    rig.net.rehost(a);

    assert_eq!(rig.net.host(), a);
    assert!(rig.in_lobby(a));
    assert_ne!(rig.net.host(), old_host);
    assert!(!rig.in_lobby(old_host));
    assert!(!rig.in_lobby(b));
    assert!(rig.net.has_left(old_host) && rig.net.has_left(b));

    rig.net.rejoin(b);
    rig.net.rejoin(old_host);
    assert_eq!(rig.lobby_clients(a), 2);
    rig.send(b, a, 8, SendMode::Reliable);
    rig.run(3);
    assert_eq!(rig.received[a.0], vec![(3, 8)]);
}

#[test]
fn a_frozen_peer_neither_sends_nor_reads_until_it_runs_again() {
    let (mut rig, host, client) = pair();
    rig.send(host, client, 1, SendMode::Reliable);
    // Only the host runs for a while: the client never reads, so its inbox fills.
    for _ in 0..5 {
        rig.step_only(&[host]);
    }
    assert!(rig.values(client).is_empty(), "a frozen peer reads nothing");
    rig.step();
    assert_eq!(rig.values(client), vec![1], "and catches up when it runs");
}

#[test]
fn the_trace_records_bytes_and_fates() {
    let (mut rig, host, client) = pair();
    rig.net.trace_packets(true);
    rig.send(client, host, 0xAB, SendMode::Reliable);
    rig.run(2);
    let sent = rig.pings(client, host);
    assert_eq!(sent.len(), 1);
    let packet = sent[0];
    assert_eq!(packet.mode, SendMode::Reliable);
    assert!(packet.contains(&vec![0xAB]), "the payload is on the wire");
    assert!(packet.was_delivered());
    // Counters cover everything on the link, and agree with the trace.
    let all: Vec<&SentPacket> = rig
        .net
        .trace()
        .iter()
        .filter(|p| p.from == client && p.to == host)
        .collect();
    assert_eq!(rig.net.packets_sent(client, host), all.len() as u64);
    assert_eq!(
        rig.net.bytes_sent(client, host),
        all.iter().map(|p| p.bytes.len() as u64).sum::<u64>()
    );
    let taken = rig.net.take_trace().len();
    assert!(taken >= 1 && rig.net.trace().is_empty());
    rig.net.trace_packets(false);
    rig.send(client, host, 1, SendMode::Reliable);
    rig.run(2);
    assert!(rig.net.trace().is_empty(), "nothing is recorded while tracing is off");
}

#[test]
fn drop_next_loses_exactly_the_packets_asked_for() {
    let (mut rig, host, client) = pair();
    rig.net.trace_packets(true);
    rig.net.drop_next(client, host, 2);
    for value in 0..4 {
        rig.send(client, host, value, SendMode::Unreliable);
    }
    rig.run(3);
    assert_eq!(rig.values(host), vec![2, 3]);
    let sent = rig.pings(client, host);
    assert_eq!(sent[0].fate, PacketFate::Dropped);
    assert_eq!(sent[1].fate, PacketFate::Dropped);
    assert!(sent[2].was_delivered());
}

#[test]
fn drop_next_loses_what_fits_a_limited_link() {
    let (mut rig, host, client) = pair();
    rig.net.set_link(Link::perfect().with_max_message_size(3));
    rig.net.trace_packets(true);
    rig.net.drop_next(client, host, 1);
    rig.send(client, host, 1_000, SendMode::Unreliable);
    rig.send(client, host, 1, SendMode::Unreliable);
    rig.run(3);
    let fates: Vec<PacketFate> = rig.pings(client, host).iter().map(|sent| sent.fate).collect();
    assert_eq!(fates, vec![PacketFate::Oversize, PacketFate::Dropped]);
}

#[test]
fn drawing_content_changes_no_packets_fate() {
    let run = |draws: usize| {
        let (mut rig, host, client) = pair();
        rig.net.seed(7);
        rig.net.set_link(Link::bad_wifi());
        rig.net.trace_packets(true);
        let mut drawn = Vec::new();
        for value in 0..100 {
            for _ in 0..draws {
                drawn.push(rig.net.rng().next_u64());
            }
            rig.send(client, host, value, SendMode::Unreliable);
            rig.step();
        }
        let trace: Vec<(u64, Vec<u8>, PacketFate)> = rig
            .net
            .take_trace()
            .into_iter()
            .map(|sent| (sent.frame, sent.bytes, sent.fate))
            .collect();
        (trace, drawn)
    };
    let (quiet, _) = run(0);
    let (busy, drawn) = run(2);
    let (_, fewer) = run(1);
    assert_eq!(quiet, busy);
    assert_eq!(drawn[..100], fewer[..], "the same numbers, however they are spread");
}

#[test]
fn corrupt_next_rewrites_one_packet_and_the_decoder_survives_it() {
    let (mut rig, host, client) = pair();
    rig.net.corrupt_next(client, host, Corruption::Truncate(1));
    rig.send(client, host, 1, SendMode::Reliable);
    rig.send(client, host, 2, SendMode::Reliable);
    rig.run(3);
    assert_eq!(rig.values(host), vec![2], "the truncated one is refused, the next is fine");
}

#[test]
fn corruptions_queue_up_per_direction() {
    let (mut rig, host, client) = pair();
    rig.net.trace_packets(true);
    rig.net.corrupt_next(client, host, Corruption::Replace(ping(70)));
    rig.net.corrupt_next(client, host, Corruption::Append(vec![9, 9]));
    rig.net.corrupt_next(client, host, Corruption::Flip { at: 2, mask: 0b101 });
    rig.net.corrupt_next(client, host, Corruption::Flip { at: 99, mask: 1 });
    rig.net.corrupt_next(client, host, Corruption::Truncate(99));
    rig.send(host, client, 5, SendMode::Reliable);
    for value in [10, 11, 12, 13, 14, 15] {
        rig.send(client, host, value, SendMode::Reliable);
    }
    rig.run(3);
    assert_eq!(rig.values(host), vec![70, 11, 12 ^ 0b101, 13, 14, 15]);
    assert_eq!(rig.values(client), vec![5], "the other direction is untouched");
    let appended = [ping(11), vec![9, 9]].concat();
    assert_eq!(rig.pings(client, host)[1].bytes, appended);
    assert_eq!(rig.net.bytes_sent(client, host), 3 * 6 + 2, "counted as they were sent");
}

#[test]
fn running_is_stepping_until_a_condition_holds() {
    let (mut rig, host, client) = pair();
    rig.net.set_link(Link::delayed(3 * FRAME));
    rig.send(client, host, 1, SendMode::Reliable);
    rig.net.run(2);
    assert_eq!(rig.net.frame(), 2);
    assert!(rig.net.run_until(10, |net| net.frame() == 5));
    assert_eq!(rig.net.frame(), 5);
    assert!(rig.net.run_until(0, |net| net.frame() == 5), "asked once, even without a step");
    assert!(!rig.net.run_until(3, |net| net.frame() == 5_000));
    assert_eq!(rig.net.frame(), 8);
    assert_eq!(rig.net.take_inbox(host).len(), 1);
}

#[test]
fn deliver_raw_puts_bytes_in_front_of_the_decoder() {
    let (mut rig, host, client) = pair();
    let mut rng = SeededRng::new(7);
    for _ in 0..200 {
        let len = rng.below(64) as usize;
        let bytes: Vec<u8> = (0..len).map(|_| rng.next_u64() as u8).collect();
        let sender = rig.net.uuid(client);
        rig.net.deliver_raw(host, sender, bytes);
    }
    rig.run(2);
    // No panic is the assertion; anything that happened to decode as a ping is fine too.
    assert!(rig.net.frame() == 2);
}

#[test]
fn the_same_seed_replays_the_same_trace() {
    fn run(seed: u64) -> Vec<(u64, PacketFate)> {
        let (mut rig, host, client) = pair();
        rig.net.seed(seed);
        rig.net.set_link(Link::bad_wifi().with_reorder(likely(0.2)));
        rig.net.trace_packets(true);
        for value in 0..300 {
            rig.send(client, host, value, SendMode::Unreliable);
            rig.step();
        }
        rig.run(100);
        rig.net
            .trace()
            .iter()
            .map(|p| (p.frame, p.fate))
            .collect()
    }
    let first = run(99);
    assert_eq!(first, run(99));
    assert_ne!(first, run(100), "a different seed is a different run");
    assert!(
        first.iter().any(|(_, fate)| *fate == PacketFate::Dropped),
        "bad wifi drops something in 300 packets"
    );
}

#[test]
fn a_disconnected_peer_is_gone_from_the_host_and_can_reconnect() {
    let (mut rig, host, client) = pair();
    rig.net.disconnect(client);
    assert_eq!(rig.lobby_clients(host), 0);
    assert!(rig.in_lobby(client), "the client has not noticed");
    rig.net.reconnect(client);
    assert_eq!(rig.lobby_clients(host), 1);
    rig.send(host, client, 4, SendMode::Reliable);
    rig.run(3);
    assert_eq!(rig.values(client), vec![4]);
}

#[test]
fn peer_rtt_reflects_each_clients_own_links() {
    let mut net = LoopbackNetwork::new(FRAME);
    let host = net.add_host(1);
    let near = net.add_client(2);
    let far = net.add_client(3);
    net.set_link_pair(far, host, Link::satellite(), Link::satellite());
    let mut rig = Rig::new(net);
    rig.step();
    let rtt = |peer: PeerId| {
        let rtt = rig.net.lobby(peer).rtt.expect("published");
        rtt.nanos as f64 / 1e9
    };
    assert!(rtt(near) < 0.01);
    assert!(rtt(far) > 0.5);
}

#[test]
fn a_number_is_drawn_below_its_bound_and_replays() {
    let mut one = SeededRng::new(7);
    let mut other = SeededRng::new(7);
    for _ in 0..100 {
        let drawn = one.below(10);
        assert!(drawn < 10);
        assert_eq!(drawn, other.below(10));
    }
    let mut zero = SeededRng::new(0);
    assert_ne!(zero.next_u64(), 0, "a zero seed is replaced");
    // 1 xorshifted by 13 left, 7 right and 17 left.
    assert_eq!(SeededRng::new(1).next_u64(), 1_082_269_761);
    assert!(!SeededRng::new(7).happens(Probability(0)));
    assert!(SeededRng::new(7).happens(Probability(UNITS)));
}

#[test]
fn a_delay_is_rounded_to_the_nearest_frame() {
    for (duration, frames) in [
        (0, 0),
        (FRAME as u128 / 2 - 1, 0),
        (FRAME as u128 / 2, 1),
        (FRAME as u128, 1),
        (FRAME as u128 * 5 / 2, 3),
    ] {
        assert_eq!(duration_to_frames(duration, FRAME), frames);
    }
    assert_eq!(duration_to_frames(0, 0), 0);
    assert_eq!(duration_to_frames(1, 0), u64::MAX);
}

#[test]
fn links_have_the_shapes_they_are_named_for() {
    assert_eq!(Link::default(), Link::perfect());
    assert_eq!(Link::cable().delay, 15_000_000);
    assert_eq!(Link::four_g().jitter, 15_000_000);
    assert_eq!(Link::bad_wifi().loss, likely(0.02));
    assert_eq!(Link::delayed(5).round_trip(), 10);
    assert_eq!(Link::perfect().with_delay(3).delay, 3);
}

#[test]
fn a_peer_is_found_by_its_identity() {
    let (rig, host, client) = pair();
    assert_eq!(rig.net.peer_by_uuid(1), Some(host));
    assert_eq!(rig.net.peer_by_uuid(2), Some(client));
    assert_eq!(rig.net.peer_by_uuid(3), None);
    assert_eq!(rig.net.host_uuid(client), Some(1));
}
