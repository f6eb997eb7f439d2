//! What a network of peers is, and what handing it a packet does, as mathematics.

use vstd::prelude::*;

use super::corruption;
use super::corruption::{CorruptionView, PendingView};
use super::link;
use super::link::Link;
use super::packet::{PacketFate, PacketView, PeerId, SentPacketView};
use super::rng;
use super::rng::SeededRng;
use crate::transport::SendMode;

verus! {

/// How a peer is attached to the network.
#[derive(Debug, Clone, Copy, PartialEq, Eq, Structural)]
pub enum Attachment {
    /// Data flows both ways but the roster does not know it yet: the client holds a pending
    /// lobby, the host has no client for it.
    Pending,
    Connected,
    /// Receives everything, is heard by nobody.
    HalfOpen,
    /// Neither direction. The host's client is gone; the client's lobby remains.
    Disconnected,
    /// Neither direction, and the client's lobby is gone too.
    Left,
}

impl Attachment {
    /// Whether what a peer attached like this sends goes anywhere.
    pub open spec fn sends(self) -> bool {
        self == Attachment::Pending || self == Attachment::Connected
    }

    /// Whether a peer attached like this gets what is sent to it.
    pub open spec fn receives(self) -> bool {
        self.sends() || self == Attachment::HalfOpen
    }

    pub fn can_send(self) -> (can: bool)
        ensures
            can == self.sends(),
    {
        self == Attachment::Pending || self == Attachment::Connected
    }

    pub fn can_receive(self) -> (can: bool)
        ensures
            can == self.receives(),
    {
        self == Attachment::Pending || self == Attachment::Connected || self
            == Attachment::HalfOpen
    }
}

/// What a connection looks like to a peer.
#[derive(Debug, Clone, Copy, PartialEq, Eq)]
pub struct RoundTrip {
    /// The round trip, in nanoseconds.
    pub nanos: u128,
    /// The mean jitter, in quarters of a nanosecond.
    pub jitter_quarter_nanos: u128,
}

/// The lobby a peer is in, as it has it.
#[derive(Debug, Clone, Copy, PartialEq, Eq)]
pub struct PeerLobby {
    /// The entity. A client addresses its packets to it.
    pub entity: u64,
    /// Whether the join is not finished.
    pub pending: bool,
    /// What the connection to the host looks like.
    pub rtt: Option<RoundTrip>,
}

/// A client, as its host has it.
#[derive(Debug, Clone, Copy, PartialEq, Eq)]
pub struct LobbyClient {
    /// The entity. A host addresses its packets to it.
    pub entity: u64,
    pub uuid: u128,
    /// What the connection to the client looks like.
    pub rtt: Option<RoundTrip>,
}

/// A packet a peer has encoded and not yet handed to the network.
#[derive(Debug)]
pub struct OutboxPacket {
    /// The address: a client on a host, the lobby on a client.
    pub entity: u64,
    pub bytes: Vec<u8>,
    pub mode: SendMode,
}

/// The mathematical content of an [`OutboxPacket`].
pub struct OutboxPacketView {
    pub entity: u64,
    pub bytes: Seq<u8>,
    pub mode: SendMode,
}

impl View for OutboxPacket {
    type V = OutboxPacketView;

    open spec fn view(&self) -> OutboxPacketView {
        OutboxPacketView { entity: self.entity, bytes: self.bytes@, mode: self.mode }
    }
}

/// A packet the network has delivered and the peer has not yet read.
#[derive(Debug, PartialEq, Eq)]
pub struct InboxPacket {
    pub sender: u128,
    pub bytes: Vec<u8>,
}

/// The mathematical content of an [`InboxPacket`].
pub struct InboxPacketView {
    pub sender: u128,
    pub bytes: Seq<u8>,
}

impl View for InboxPacket {
    type V = InboxPacketView;

    open spec fn view(&self) -> InboxPacketView {
        InboxPacketView { sender: self.sender, bytes: self.bytes@ }
    }
}

/// The views of packets to be sent, in order.
pub open spec fn outbox_views(packets: Seq<OutboxPacket>) -> Seq<OutboxPacketView> {
    Seq::new(packets.len(), |i: int| packets[i]@)
}

/// The views of delivered packets, in order.
pub open spec fn inbox_views(packets: Seq<InboxPacket>) -> Seq<InboxPacketView> {
    Seq::new(packets.len(), |i: int| packets[i]@)
}

/// One peer, as the network sees it.
#[derive(Debug)]
pub struct Peer {
    pub uuid: u128,
    pub is_host: bool,
    pub lobby: Option<PeerLobby>,
    pub attachment: Attachment,
    /// Who the peer has been told it is.
    pub local_id: Option<u128>,
    /// Who the peer has been told hosts its lobby.
    pub host_uuid: Option<u128>,
    /// The clients of the lobby it hosts.
    pub clients: Vec<LobbyClient>,
    pub outbox: Vec<OutboxPacket>,
    pub inbox: Vec<InboxPacket>,
}

/// The mathematical content of a [`Peer`].
#[verifier::ext_equal]
pub struct PeerView {
    pub uuid: u128,
    pub is_host: bool,
    pub lobby: Option<PeerLobby>,
    pub attachment: Attachment,
    pub local_id: Option<u128>,
    pub host_uuid: Option<u128>,
    pub clients: Seq<LobbyClient>,
    pub outbox: Seq<OutboxPacketView>,
    pub inbox: Seq<InboxPacketView>,
}

impl View for Peer {
    type V = PeerView;

    open spec fn view(&self) -> PeerView {
        PeerView {
            uuid: self.uuid,
            is_host: self.is_host,
            lobby: self.lobby,
            attachment: self.attachment,
            local_id: self.local_id,
            host_uuid: self.host_uuid,
            clients: self.clients@,
            outbox: outbox_views(self.outbox@),
            inbox: inbox_views(self.inbox@),
        }
    }
}

/// The views of peers, in order.
pub open spec fn peer_views(peers: Seq<Peer>) -> Seq<PeerView> {
    Seq::new(peers.len(), |i: int| peers[i]@)
}

/// What was handed to the network on one direction of a pair, whether or not it arrived.
#[derive(Debug, Clone, Copy, PartialEq, Eq)]
pub struct Sent {
    pub packets: u64,
    pub bytes: u64,
}

/// The mathematical content of a [`LoopbackNetwork`].
#[verifier::ext_equal]
pub struct NetworkView {
    pub peers: Seq<PeerView>,
    pub default_link: Link,
    pub links: Map<u128, Link>,
    pub in_flight: Seq<PacketView>,
    pub last_reliable_delivery: Map<u128, u64>,
    pub next_seq: Map<u128, u64>,
    pub frame: u64,
    pub link_rng: SeededRng,
    pub content_rng: SeededRng,
    pub frame_duration: u64,
    pub trace: Option<Seq<SentPacketView>>,
    pub sent: Map<u128, Sent>,
    pub pending_drops: Map<u128, usize>,
    pub pending_corruptions: Seq<PendingView>,
    pub known_clients: Map<u64, u128>,
    pub next_entity: u64,
}

/// How many peers a direction of a pair can be told apart for.
pub const PEER_SPAN: u128 = 18_446_744_073_709_551_616;

/// One direction of one pair, as a number.
pub open spec fn pair_key(from: usize, to: usize) -> u128 {
    (from * PEER_SPAN + to) as u128
}

/// Different directions are different numbers.
pub proof fn lemma_pair_key_is_injective(from: usize, to: usize, other_from: usize, other_to: usize)
    ensures
        pair_key(from, to) == pair_key(other_from, other_to) ==> from == other_from && to
            == other_to,
{
    assert(from * PEER_SPAN + to <= u128::MAX);
    assert(other_from * PEER_SPAN + other_to <= u128::MAX);
}

impl NetworkView {
    /// The link a packet from `from` to `to` crosses.
    pub open spec fn link_between(self, from: usize, to: usize) -> Link {
        if self.links.dom().contains(pair_key(from, to)) {
            self.links[pair_key(from, to)]
        } else {
            self.default_link
        }
    }

    /// The last place in the send order that was given out.
    pub open spec fn seq_of(self, key: u128) -> u64 {
        if self.next_seq.dom().contains(key) {
            self.next_seq[key]
        } else {
            0
        }
    }

    /// The frame of the last scheduled reliable delivery.
    pub open spec fn last_of(self, key: u128) -> u64 {
        if self.last_reliable_delivery.dom().contains(key) {
            self.last_reliable_delivery[key]
        } else {
            0
        }
    }

    /// How many unreliable packets are still to be dropped.
    pub open spec fn drops_of(self, key: u128) -> usize {
        if self.pending_drops.dom().contains(key) {
            self.pending_drops[key]
        } else {
            0
        }
    }

    /// What was handed to the network.
    pub open spec fn sent_of(self, key: u128) -> Sent {
        if self.sent.dom().contains(key) {
            self.sent[key]
        } else {
            Sent { packets: 0, bytes: 0 }
        }
    }

    /// How many frames `duration` nanoseconds are.
    pub open spec fn frames(self, duration: int) -> int {
        link::frames_in(duration, self.frame_duration as int)
    }

    /// The longest a packet can be on this link, in frames, if it is retransmitted once.
    pub open spec fn longest(self, link: Link) -> int {
        self.frames(link.delay as int) + self.frames(link.jitter as int) + self.frames(
            2 * link.delay,
        )
    }

    /// The network once a packet and its fate are on record.
    pub open spec fn recorded(
        self,
        from: usize,
        to: usize,
        mode: SendMode,
        bytes: Seq<u8>,
        fate: PacketFate,
    ) -> NetworkView {
        let key = pair_key(from, to);
        let sent = self.sent_of(key);
        NetworkView {
            sent: self.sent.insert(
                key,
                Sent {
                    packets: (sent.packets + 1) as u64,
                    bytes: (sent.bytes + bytes.len()) as u64,
                },
            ),
            trace: match self.trace {
                Some(trace) => Some(
                    trace.push(
                        SentPacketView {
                            frame: self.frame,
                            from: PeerId(from),
                            to: PeerId(to),
                            mode,
                            bytes,
                            fate,
                        },
                    ),
                ),
                None => None,
            },
            ..self
        }
    }

    /// The network once the next place in a link's send order is taken: it is `seq_of` of what
    /// this returns.
    pub open spec fn numbered(self, key: u128) -> NetworkView {
        NetworkView {
            next_seq: self.next_seq.insert(key, (self.seq_of(key) + 1) as u64),
            ..self
        }
    }

    /// The network with one more packet on its way.
    pub open spec fn launched(self, packet: PacketView) -> NetworkView {
        NetworkView { in_flight: self.in_flight.push(packet), ..self }
    }

    /// The frame a packet that takes `delay` frames arrives on. Never the frame it was sent on: a
    /// packet always takes at least until the next frame, as it would through a real socket poll.
    pub open spec fn arrival(self, delay: int) -> u64 {
        (self.frame + if delay > 1 {
            delay
        } else {
            1
        }) as u64
    }
}

/// What a link does to a packet before it is known whether the packet is reliable.
pub struct Transit {
    /// How many frames it takes, unless it is retransmitted.
    pub delay: int,
    /// Whether it is lost on the way.
    pub lost: bool,
    /// The generator afterwards.
    pub rng: SeededRng,
}

/// What a link does to a packet. `forced`: it is lost whatever the link would have done.
pub open spec fn transit(link: Link, frame_duration: u64, forced: bool, rng: SeededRng) -> Transit {
    let delay = link::frames_in(link.delay as int, frame_duration as int);
    let spread = (link::frames_in(link.jitter as int, frame_duration as int) + 1) as u64;
    let (delayed, jittered) = if link.jitter > 0 {
        (delay + rng.next_below(spread), rng.after_below(spread))
    } else {
        (delay, rng)
    };
    if forced {
        Transit { delay: delayed, lost: true, rng: jittered }
    } else if link.loss.0 > 0 {
        Transit {
            delay: delayed,
            lost: jittered.next_happens(link.loss),
            rng: jittered.after(),
        }
    } else {
        Transit { delay: delayed, lost: false, rng: jittered }
    }
}

/// The network once a reliable packet that takes `delay` frames is on its way: not before the last
/// one sent on the same link.
pub open spec fn carried(
    net: NetworkView,
    from: usize,
    to: usize,
    bytes: Seq<u8>,
    mode: SendMode,
    delay: int,
) -> NetworkView {
    let key = pair_key(from, to);
    let at = if net.arrival(delay) > net.last_of(key) {
        net.arrival(delay)
    } else {
        net.last_of(key)
    };
    let numbered = NetworkView {
        last_reliable_delivery: net.last_reliable_delivery.insert(key, at),
        ..net
    }.numbered(key);
    numbered.recorded(
        from,
        to,
        mode,
        bytes,
        PacketFate::Delivered { at_frame: at },
    ).launched(
        PacketView {
            seq: numbered.seq_of(key),
            to,
            from,
            from_uuid: net.peers[from as int].uuid,
            bytes,
            reliable: true,
            deliver_at_frame: at,
        },
    )
}

/// Whether a packet in flight is one that a packet numbered `seq` on the same link can overtake.
pub open spec fn can_be_overtaken(packet: PacketView, from: usize, to: usize, seq: u64) -> bool {
    !packet.reliable && packet.from == from && packet.to == to && packet.seq < seq
}

/// The packet, among the first `n` in flight, that comes immediately before `seq` in the link's
/// wire order.
pub open spec fn overtaken(
    in_flight: Seq<PacketView>,
    n: nat,
    from: usize,
    to: usize,
    seq: u64,
) -> Option<int>
    decreases n,
{
    if n == 0 {
        None
    } else {
        let earlier = overtaken(in_flight, (n - 1) as nat, from, to, seq);
        let packet = in_flight[n - 1];
        if can_be_overtaken(packet, from, to, seq) && (earlier is None || packet.seq
            >= in_flight[earlier->0].seq) {
            Some(n - 1)
        } else {
            earlier
        }
    }
}

/// Where an unreliable packet stands once it is known whether it overtakes another.
pub struct Overtake {
    pub seq: u64,
    pub at: u64,
    pub in_flight: Seq<PacketView>,
    pub rng: SeededRng,
}

/// Where an unreliable packet that is numbered `seq` and arrives at `at` stands once it is known
/// whether it overtakes the packet before it: the two swap places, in sequence and in delivery
/// frame, so the later one arrives first and nothing else moves.
pub open spec fn overtaking(
    in_flight: Seq<PacketView>,
    rng: SeededRng,
    link: Link,
    from: usize,
    to: usize,
    seq: u64,
    at: u64,
) -> Overtake {
    let rng_after = if link.reorder.0 > 0 {
        rng.after()
    } else {
        rng
    };
    match overtaken(in_flight, in_flight.len(), from, to, seq) {
        Some(i) if link.reorder.0 > 0 && rng.next_happens(link.reorder) => Overtake {
            seq: in_flight[i].seq,
            at: in_flight[i].deliver_at_frame,
            in_flight: in_flight.update(
                i,
                PacketView { seq, deliver_at_frame: at, ..in_flight[i] },
            ),
            rng: rng_after,
        },
        _ => Overtake { seq, at, in_flight, rng: rng_after },
    }
}

/// The network once an unreliable packet that takes `delay` frames is on its way.
pub open spec fn thrown(
    net: NetworkView,
    from: usize,
    to: usize,
    bytes: Seq<u8>,
    mode: SendMode,
    delay: int,
) -> NetworkView {
    let key = pair_key(from, to);
    let link = net.link_between(from, to);
    let numbered = net.numbered(key);
    let placed = overtaking(
        numbered.in_flight,
        numbered.link_rng,
        link,
        from,
        to,
        numbered.seq_of(key),
        net.arrival(delay),
    );
    let ordered = NetworkView { in_flight: placed.in_flight, link_rng: placed.rng, ..numbered };
    let packet = PacketView {
        seq: placed.seq,
        to,
        from,
        from_uuid: net.peers[from as int].uuid,
        bytes,
        reliable: false,
        deliver_at_frame: placed.at,
    };
    let drawn = if link.duplicate.0 > 0 {
        NetworkView { link_rng: placed.rng.after(), ..ordered }
    } else {
        ordered
    };
    if link.duplicate.0 > 0 && placed.rng.next_happens(link.duplicate) {
        let twice = drawn.numbered(key);
        twice.launched(
            PacketView {
                seq: twice.seq_of(key),
                deliver_at_frame: (placed.at + 1) as u64,
                ..packet
            },
        ).recorded(
            from,
            to,
            mode,
            bytes,
            PacketFate::Duplicated { at_frames: (placed.at, (placed.at + 1) as u64) },
        ).launched(packet)
    } else {
        drawn.recorded(
            from,
            to,
            mode,
            bytes,
            PacketFate::Delivered { at_frame: placed.at },
        ).launched(packet)
    }
}

/// The network once a packet, with the bytes it is sent with, has been handed to its link.
pub open spec fn forwarded(
    net: NetworkView,
    from: usize,
    to: usize,
    bytes: Seq<u8>,
    mode: SendMode,
) -> NetworkView {
    let key = pair_key(from, to);
    let link = net.link_between(from, to);
    let forced = !mode.reliable() && net.drops_of(key) > 0;
    let way = transit(link, net.frame_duration, forced, net.link_rng);
    let ready = NetworkView {
        link_rng: way.rng,
        pending_drops: if forced {
            net.pending_drops.insert(key, (net.drops_of(key) - 1) as usize)
        } else {
            net.pending_drops
        },
        ..net
    };
    if !net.peers[from as int].attachment.sends()
        || !net.peers[to as int].attachment.receives() {
        net.recorded(from, to, mode, bytes, PacketFate::Unreachable)
    } else if !mode.reliable() && (link.max_message_size matches Some(limit) && bytes.len()
        > limit) {
        net.recorded(from, to, mode, bytes, PacketFate::Oversize)
    } else if mode.reliable() {
        carried(
            ready,
            from,
            to,
            bytes,
            mode,
            way.delay + if way.lost {
                net.frames(2 * link.delay)
            } else {
                0
            },
        )
    } else if way.lost {
        ready.recorded(from, to, mode, bytes, PacketFate::Dropped)
    } else {
        thrown(ready, from, to, bytes, mode, way.delay)
    }
}

impl NetworkView {
    /// The first rewrite that waits for a packet of this direction.
    pub open spec fn corruption_for(self, from: usize, to: usize) -> int {
        corruption::first_for(self.pending_corruptions, pair_key(from, to))
    }

    /// The bytes a packet is sent with: rewritten, if that was asked for.
    pub open spec fn rewritten(self, from: usize, to: usize, bytes: Seq<u8>) -> Seq<u8> {
        let first = self.corruption_for(from, to);
        if 0 <= first < self.pending_corruptions.len() {
            self.pending_corruptions[first].rewrite.applied(bytes)
        } else {
            bytes
        }
    }

    /// The network once the first rewrite that waits for a packet of this direction is taken.
    pub open spec fn rewrite_taken(self, from: usize, to: usize) -> NetworkView {
        let first = self.corruption_for(from, to);
        if 0 <= first < self.pending_corruptions.len() {
            NetworkView {
                pending_corruptions: self.pending_corruptions.remove(first),
                ..self
            }
        } else {
            self
        }
    }
}

/// The network once the next packet of this direction is to be rewritten, behind what was asked
/// for before.
pub open spec fn corrupting(
    net: NetworkView,
    from: usize,
    to: usize,
    rewrite: CorruptionView,
) -> NetworkView {
    NetworkView {
        pending_corruptions: net.pending_corruptions.push(
            PendingView { key: pair_key(from, to), rewrite },
        ),
        ..net
    }
}

/// The network once it has been handed a packet.
pub open spec fn scheduled(
    net: NetworkView,
    from: usize,
    to: usize,
    bytes: Seq<u8>,
    mode: SendMode,
) -> NetworkView {
    forwarded(
        net.rewrite_taken(from, to),
        from,
        to,
        net.rewritten(from, to, bytes),
        mode,
    )
}

impl NetworkView {
    /// Whether a packet in flight is between two peers there are.
    pub open spec fn packet_in_order(self, packet: PacketView) -> bool {
        packet.from < self.peers.len() && packet.to < self.peers.len()
    }

    /// Whether every packet in flight is between two peers there are.
    pub open spec fn in_order(self) -> bool {
        forall|i: int|
            0 <= i < self.in_flight.len() ==> self.packet_in_order(#[trigger] self.in_flight[i])
    }

    /// Whether the clock has room for that many packets, on every link and behind everything
    /// that is in flight.
    pub open spec fn clock_has_room(self, packets: int) -> bool {
        &&& forall|from: usize, to: usize|
            self.frame + self.longest(#[trigger] self.link_between(from, to)) + packets + 2
                <= u64::MAX
        &&& forall|i: int|
            0 <= i < self.in_flight.len() ==> (#[trigger] self.in_flight[i]).deliver_at_frame
                + packets <= u64::MAX
        &&& forall|key: u128| #[trigger] self.last_of(key) + packets <= u64::MAX
    }

    /// Whether the clock and the counters have room for that many packets of that size in all.
    pub open spec fn has_room(self, packets: int, size: int) -> bool {
        &&& self.clock_has_room(packets)
        &&& forall|key: u128| #[trigger] self.seq_of(key) + 2 * packets <= u64::MAX
        &&& forall|key: u128| (#[trigger] self.sent_of(key)).packets + packets <= u64::MAX
        &&& forall|key: u128| (#[trigger] self.sent_of(key)).bytes + size <= u64::MAX
    }
}

/// The order is a matter of the packets in flight alone.
pub(crate) proof fn lemma_same_flights_same_order(before: NetworkView, after: NetworkView)
    requires
        before.in_order(),
        after.in_flight == before.in_flight,
        after.peers.len() == before.peers.len(),
    ensures
        after.in_order(),
{
    assert forall|i: int| 0 <= i < after.in_flight.len() implies after.packet_in_order(
        #[trigger] after.in_flight[i],
    ) by {
        assert(before.packet_in_order(before.in_flight[i]));
    }
}

/// Room is a matter of the clock, the links, the flights and the counters alone.
pub(crate) proof fn lemma_same_counters_same_room(
    before: NetworkView,
    after: NetworkView,
    packets: int,
    size: int,
)
    requires
        before.has_room(packets, size),
        after.frame == before.frame,
        after.frame_duration == before.frame_duration,
        after.links == before.links,
        after.default_link == before.default_link,
        after.next_seq == before.next_seq,
        after.sent == before.sent,
        after.in_flight == before.in_flight,
        after.last_reliable_delivery == before.last_reliable_delivery,
    ensures
        after.has_room(packets, size),
{
    assert forall|from: usize, to: usize|
        after.frame + after.longest(#[trigger] after.link_between(from, to)) + packets + 2
            <= u64::MAX by {
        assert(before.frame + before.longest(before.link_between(from, to)) + packets + 2
            <= u64::MAX);
    }
    assert forall|key: u128| #[trigger] after.last_of(key) + packets <= u64::MAX by {
        assert(before.last_of(key) + packets <= u64::MAX);
    }
    assert forall|i: int| 0 <= i < after.in_flight.len() implies (
    #[trigger] after.in_flight[i]).deliver_at_frame + packets <= u64::MAX by {
        assert(before.in_flight[i].deliver_at_frame + packets <= u64::MAX);
    }
    assert forall|key: u128| #[trigger] after.seq_of(key) + 2 * packets <= u64::MAX by {
        assert(before.seq_of(key) + 2 * packets <= u64::MAX);
    }
    assert forall|key: u128| (#[trigger] after.sent_of(key)).packets + packets <= u64::MAX by {
        assert(before.sent_of(key).packets + packets <= u64::MAX);
    }
    assert forall|key: u128| (#[trigger] after.sent_of(key)).bytes + size <= u64::MAX by {
        assert(before.sent_of(key).bytes + size <= u64::MAX);
    }
}

/// Where there is room for more there is room for less.
pub(crate) proof fn lemma_room_for_less(net: NetworkView, packets: int, fewer: int, size: int, smaller: int)
    requires
        net.has_room(packets, size),
        fewer <= packets,
        smaller <= size,
    ensures
        net.has_room(fewer, smaller),
{
    assert forall|from: usize, to: usize|
        net.frame + net.longest(#[trigger] net.link_between(from, to)) + fewer + 2
            <= u64::MAX by {
        assert(net.frame + net.longest(net.link_between(from, to)) + packets + 2 <= u64::MAX);
    }
}

/// There is no negative number of frames.
pub(crate) proof fn lemma_frames_not_negative(duration: int, frame_duration: int)
    requires
        duration >= 0,
        frame_duration >= 0,
    ensures
        link::frames_in(duration, frame_duration) >= 0,
{
    if frame_duration > 0 {
        vstd::arithmetic::div_mod::lemma_div_pos_is_pos(
            2 * duration + frame_duration,
            2 * frame_duration,
        );
    }
}

/// What is due at `frame`.
pub open spec fn due(frame: u64) -> spec_fn(PacketView) -> bool {
    |packet: PacketView| packet.deliver_at_frame <= frame
}

/// What is not yet due at `frame`.
pub open spec fn not_due(frame: u64) -> spec_fn(PacketView) -> bool {
    |packet: PacketView| packet.deliver_at_frame > frame
}

/// `sorted` with `packet` in its place: behind everything it does not precede.
pub open spec fn inserted(sorted: Seq<PacketView>, packet: PacketView) -> Seq<PacketView>
    decreases sorted.len(),
{
    if sorted.len() == 0 || !packet.precedes(sorted.last()) {
        sorted.push(packet)
    } else {
        inserted(sorted.drop_last(), packet).push(sorted.last())
    }
}

/// `packets` in the order they are delivered in. Of two that neither precede the other, the one
/// that came first stays first.
pub open spec fn sorted(packets: Seq<PacketView>) -> Seq<PacketView>
    decreases packets.len(),
{
    if packets.len() == 0 {
        packets
    } else {
        inserted(sorted(packets.drop_last()), packets.last())
    }
}

/// The peers once `packet` is in its recipient's inbox, if it can receive.
pub open spec fn handed(peers: Seq<PeerView>, packet: PacketView) -> Seq<PeerView> {
    let peer = peers[packet.to as int];
    if peer.attachment.receives() {
        peers.update(
            packet.to as int,
            PeerView {
                inbox: peer.inbox.push(
                    InboxPacketView { sender: packet.from_uuid, bytes: packet.bytes },
                ),
                ..peer
            },
        )
    } else {
        peers
    }
}

/// The peers once each of `packets` is in its recipient's inbox, in order.
pub open spec fn all_handed(peers: Seq<PeerView>, packets: Seq<PacketView>) -> Seq<PeerView>
    decreases packets.len(),
{
    if packets.len() == 0 {
        peers
    } else {
        handed(all_handed(peers, packets.drop_last()), packets.last())
    }
}

/// The network once everything that has come due is delivered.
pub open spec fn delivered(net: NetworkView) -> NetworkView {
    NetworkView {
        in_flight: net.in_flight.filter(not_due(net.frame)),
        peers: all_handed(net.peers, sorted(net.in_flight.filter(due(net.frame)))),
        ..net
    }
}

/// Handing packets over changes inboxes only.
pub(crate) proof fn lemma_handed_keeps(peers: Seq<PeerView>, packets: Seq<PacketView>)
    requires
        forall|i: int| 0 <= i < packets.len() ==> (#[trigger] packets[i]).to < peers.len(),
    ensures
        all_handed(peers, packets).len() == peers.len(),
        forall|i: int|
            0 <= i < peers.len() ==> #[trigger] all_handed(peers, packets)[i] == (PeerView {
                inbox: all_handed(peers, packets)[i].inbox,
                ..peers[i]
            }),
    decreases packets.len(),
{
    if packets.len() > 0 {
        assert(packets.last() == packets[packets.len() - 1]);
        lemma_handed_keeps(peers, packets.drop_last());
    }
}

/// A packet in its place among sorted ones, by where that place is.
pub(crate) proof fn lemma_inserted_at(sorted: Seq<PacketView>, packet: PacketView, at: int)
    requires
        0 <= at <= sorted.len(),
        forall|i: int| at <= i < sorted.len() ==> packet.precedes(#[trigger] sorted[i]),
        at > 0 ==> !packet.precedes(sorted[at - 1]),
    ensures
        inserted(sorted, packet) == sorted.insert(at, packet),
    decreases sorted.len(),
{
    if sorted.len() == at {
        assert(sorted.push(packet) =~= sorted.insert(at, packet));
    } else {
        lemma_inserted_at(sorted.drop_last(), packet, at);
        assert(sorted.drop_last().insert(at, packet).push(sorted.last()) =~= sorted.insert(
            at,
            packet,
        ));
    }
}

/// What is sorted is what was there, and what holds of all of it still does.
pub(crate) proof fn lemma_inserted_all(
    sorted: Seq<PacketView>,
    packet: PacketView,
    holds: spec_fn(PacketView) -> bool,
)
    requires
        holds(packet),
        forall|i: int| 0 <= i < sorted.len() ==> holds(#[trigger] sorted[i]),
    ensures
        inserted(sorted, packet).len() == sorted.len() + 1,
        forall|i: int|
            0 <= i < inserted(sorted, packet).len() ==> holds(
                #[trigger] inserted(sorted, packet)[i],
            ),
    decreases sorted.len(),
{
    if !(sorted.len() == 0 || !packet.precedes(sorted.last())) {
        lemma_inserted_all(sorted.drop_last(), packet, holds);
    }
}

/// What holds of all packets holds of them sorted.
pub(crate) proof fn lemma_sorted_all(
    packets: Seq<PacketView>,
    holds: spec_fn(PacketView) -> bool,
)
    requires
        forall|i: int| 0 <= i < packets.len() ==> holds(#[trigger] packets[i]),
    ensures
        sorted(packets).len() == packets.len(),
        forall|i: int| 0 <= i < packets.len() ==> holds(#[trigger] sorted(packets)[i]),
    decreases packets.len(),
{
    if packets.len() > 0 {
        assert(packets.last() == packets[packets.len() - 1]);
        lemma_sorted_all(packets.drop_last(), holds);
        lemma_inserted_all(sorted(packets.drop_last()), packets.last(), holds);
    }
}

/// What holds of all packets holds of those that are kept.
pub(crate) proof fn lemma_filtered_all(
    packets: Seq<PacketView>,
    keep: spec_fn(PacketView) -> bool,
    holds: spec_fn(PacketView) -> bool,
)
    requires
        forall|i: int| 0 <= i < packets.len() ==> holds(#[trigger] packets[i]),
    ensures
        forall|i: int| 0 <= i < packets.filter(keep).len() ==> holds(
            #[trigger] packets.filter(keep)[i],
        ),
    decreases packets.len(),
{
    reveal(Seq::filter);
    if packets.len() > 0 {
        assert(packets.last() == packets[packets.len() - 1]);
        lemma_filtered_all(packets.drop_last(), keep, holds);
        let shorter = packets.drop_last().filter(keep);
        assert forall|i: int| 0 <= i < packets.filter(keep).len() implies holds(
            #[trigger] packets.filter(keep)[i],
        ) by {
            if i < shorter.len() {
                assert(packets.filter(keep)[i] == shorter[i]);
            }
        }
    }
}

/// The place of the first host among the peers; how many there are if none is.
pub open spec fn host_position(peers: Seq<PeerView>) -> int
    decreases peers.len(),
{
    if peers.len() == 0 || peers[0].is_host {
        0
    } else {
        1 + host_position(peers.drop_first())
    }
}

/// The place of the first peer that is `uuid`; how many there are if none is.
pub open spec fn uuid_position(peers: Seq<PeerView>, uuid: u128) -> int
    decreases peers.len(),
{
    if peers.len() == 0 || peers[0].uuid == uuid {
        0
    } else {
        1 + uuid_position(peers.drop_first(), uuid)
    }
}

/// The place before which there is no host, and at which there is one or the peers end.
pub(crate) proof fn lemma_host_position(peers: Seq<PeerView>, at: int)
    requires
        0 <= at <= peers.len(),
        at < peers.len() ==> peers[at].is_host,
        forall|i: int| 0 <= i < at ==> !(#[trigger] peers[i]).is_host,
    ensures
        host_position(peers) == at,
    decreases peers.len(),
{
    if at > 0 {
        assert(!peers[0].is_host);
        let later = peers.drop_first();
        assert forall|i: int| 0 <= i < at - 1 implies !(#[trigger] later[i]).is_host by {
            assert(later[i] == peers[i + 1]);
        }
        lemma_host_position(later, at - 1);
    }
}

/// The place before which nobody is `uuid`, and at which somebody is or the peers end.
pub(crate) proof fn lemma_uuid_position(peers: Seq<PeerView>, uuid: u128, at: int)
    requires
        0 <= at <= peers.len(),
        at < peers.len() ==> peers[at].uuid == uuid,
        forall|i: int| 0 <= i < at ==> (#[trigger] peers[i]).uuid != uuid,
    ensures
        uuid_position(peers, uuid) == at,
    decreases peers.len(),
{
    if at > 0 {
        assert(peers[0].uuid != uuid);
        let later = peers.drop_first();
        assert forall|i: int| 0 <= i < at - 1 implies (#[trigger] later[i]).uuid != uuid by {
            assert(later[i] == peers[i + 1]);
        }
        lemma_uuid_position(later, uuid, at - 1);
    }
}

/// Where the first host stands.
pub(crate) proof fn lemma_host_found(peers: Seq<PeerView>)
    ensures
        0 <= host_position(peers) <= peers.len(),
        host_position(peers) < peers.len() ==> peers[host_position(peers)].is_host,
        forall|i: int| 0 <= i < host_position(peers) ==> !(#[trigger] peers[i]).is_host,
    decreases peers.len(),
{
    if peers.len() > 0 && !peers[0].is_host {
        let later = peers.drop_first();
        lemma_host_found(later);
        assert forall|i: int| 0 <= i < host_position(peers) implies !(
        #[trigger] peers[i]).is_host by {
            if i > 0 {
                assert(later[i - 1] == peers[i]);
            }
        }
    }
}

/// Where the first peer that is `uuid` stands.
pub(crate) proof fn lemma_uuid_found(peers: Seq<PeerView>, uuid: u128)
    ensures
        0 <= uuid_position(peers, uuid) <= peers.len(),
        uuid_position(peers, uuid) < peers.len() ==> peers[uuid_position(peers, uuid)].uuid
            == uuid,
    decreases peers.len(),
{
    if peers.len() > 0 && peers[0].uuid != uuid {
        lemma_uuid_found(peers.drop_first(), uuid);
    }
}

/// The host is a matter of who hosts alone.
pub(crate) proof fn lemma_same_hosts(before: Seq<PeerView>, after: Seq<PeerView>)
    requires
        before.len() == after.len(),
        forall|i: int|
            0 <= i < before.len() ==> (#[trigger] after[i]).is_host == before[i].is_host,
    ensures
        host_position(before) == host_position(after),
{
    lemma_host_found(before);
    assert forall|i: int| 0 <= i < host_position(before) implies !(
    #[trigger] after[i]).is_host by {
        assert(!before[i].is_host);
    }
    lemma_host_position(after, host_position(before));
}

impl NetworkView {
    /// Whether somebody hosts, among as many peers as can be counted.
    pub open spec fn has_host(self) -> bool {
        host_position(self.peers) < self.peers.len() <= usize::MAX
    }

    /// The host.
    pub open spec fn host(self) -> usize {
        host_position(self.peers) as usize
    }
}

/// A packet whose sender and recipient are known.
#[derive(Debug)]
pub struct Resolved {
    pub from: usize,
    pub to: usize,
    pub bytes: Vec<u8>,
    pub mode: SendMode,
}

/// The mathematical content of a [`Resolved`].
pub struct ResolvedView {
    pub from: usize,
    pub to: usize,
    pub bytes: Seq<u8>,
    pub mode: SendMode,
}

impl View for Resolved {
    type V = ResolvedView;

    open spec fn view(&self) -> ResolvedView {
        ResolvedView { from: self.from, to: self.to, bytes: self.bytes@, mode: self.mode }
    }
}

/// The views of resolved packets, in order.
pub open spec fn resolved_views(packets: Seq<Resolved>) -> Seq<ResolvedView> {
    Seq::new(packets.len(), |i: int| packets[i]@)
}

/// Everyone a host has had as a client, once its current clients are among them.
pub open spec fn with_clients(known: Map<u64, u128>, clients: Seq<LobbyClient>) -> Map<u64, u128>
    decreases clients.len(),
{
    if clients.len() == 0 {
        known
    } else {
        with_clients(known, clients.drop_last()).insert(
            clients.last().entity,
            clients.last().uuid,
        )
    }
}

/// Who a packet that the peer `from` addresses to `entity` is for.
///
/// On a host the packet is addressed to one client — possibly one that is gone since the packet
/// was encoded, which is what a kick notification always is. On a client it is for the host.
pub open spec fn destination(net: NetworkView, from: usize, entity: u64) -> Option<usize> {
    if net.peers[from as int].is_host {
        if net.known_clients.dom().contains(entity) && uuid_position(
            net.peers,
            net.known_clients[entity],
        ) < net.peers.len() {
            Some(uuid_position(net.peers, net.known_clients[entity]) as usize)
        } else {
            None
        }
    } else {
        Some(net.host())
    }
}

/// The first `n` packets that the peer `from` has to send, with their recipients. Those that are
/// for nobody are left out.
pub open spec fn resolved_outbox(net: NetworkView, from: usize, n: nat) -> Seq<ResolvedView>
    decreases n,
{
    if n == 0 {
        Seq::empty()
    } else {
        let packet = net.peers[from as int].outbox[n - 1];
        let earlier = resolved_outbox(net, from, (n - 1) as nat);
        match destination(net, from, packet.entity) {
            Some(to) => earlier.push(
                ResolvedView { from, to, bytes: packet.bytes, mode: packet.mode },
            ),
            None => earlier,
        }
    }
}

/// The packets that the first `n` peers have to send, with their recipients.
pub open spec fn resolved(net: NetworkView, n: nat) -> Seq<ResolvedView>
    decreases n,
{
    if n == 0 {
        Seq::empty()
    } else {
        resolved(net, (n - 1) as nat) + resolved_outbox(
            net,
            (n - 1) as usize,
            net.peers[n - 1].outbox.len(),
        )
    }
}

/// The peers with nothing left to send.
pub open spec fn emptied(peers: Seq<PeerView>) -> Seq<PeerView> {
    Seq::new(peers.len(), |i: int| PeerView { outbox: Seq::empty(), ..peers[i] })
}

/// The network once it knows the host's current clients.
pub open spec fn acquainted(net: NetworkView) -> NetworkView {
    NetworkView {
        known_clients: with_clients(net.known_clients, net.peers[net.host() as int].clients),
        ..net
    }
}

/// Everything that is to be sent, with its recipients.
pub open spec fn outbound(net: NetworkView) -> Seq<ResolvedView> {
    resolved(acquainted(net), net.peers.len())
}

/// The network once every peer's outbox has been taken.
pub open spec fn drained(net: NetworkView) -> NetworkView {
    NetworkView { peers: emptied(net.peers), ..acquainted(net) }
}

/// The network once it has been handed each of `packets`, in order.
pub open spec fn all_scheduled(net: NetworkView, packets: Seq<ResolvedView>) -> NetworkView
    decreases packets.len(),
{
    if packets.len() == 0 {
        net
    } else {
        let last = packets.last();
        scheduled(
            all_scheduled(net, packets.drop_last()),
            last.from,
            last.to,
            last.bytes,
            last.mode,
        )
    }
}

/// How many bytes `packets` are in all.
pub open spec fn total_size(packets: Seq<ResolvedView>) -> int
    decreases packets.len(),
{
    if packets.len() == 0 {
        0
    } else {
        total_size(packets.drop_last()) + packets.last().bytes.len()
    }
}

/// The network once everything that was to be sent is on its way, lost, or refused.
pub open spec fn collected(net: NetworkView) -> NetworkView {
    all_scheduled(drained(net), outbound(net))
}

/// Handing a link a packet uses up the room for one.
proof fn lemma_forwarded_keeps(
    net: NetworkView,
    from: usize,
    to: usize,
    bytes: Seq<u8>,
    mode: SendMode,
    packets: int,
    size: int,
)
    requires
        from < net.peers.len(),
        to < net.peers.len(),
        net.in_order(),
        packets >= 1,
        size >= bytes.len(),
        net.has_room(packets, size),
    ensures
        forwarded(net, from, to, bytes, mode).in_order(),
        forwarded(net, from, to, bytes, mode).has_room(packets - 1, size - bytes.len()),
        forwarded(net, from, to, bytes, mode).peers == net.peers,
        forwarded(net, from, to, bytes, mode).pending_corruptions == net.pending_corruptions,
{
    let after = forwarded(net, from, to, bytes, mode);
    let key = pair_key(from, to);
    let link = net.link_between(from, to);
    lemma_frames_not_negative(link.delay as int, net.frame_duration as int);
    lemma_frames_not_negative(link.jitter as int, net.frame_duration as int);
    lemma_frames_not_negative(2 * link.delay, net.frame_duration as int);
    assert(net.frame + net.longest(link) + packets + 2 <= u64::MAX);
    assert(net.seq_of(key) + 2 * packets <= u64::MAX);
    assert(net.sent_of(key).packets + packets <= u64::MAX);
    assert(net.sent_of(key).bytes + size <= u64::MAX);
    assert(net.last_of(key) + packets <= u64::MAX);
    let forced = !mode.reliable() && net.drops_of(key) > 0;
    let way = transit(link, net.frame_duration, forced, net.link_rng);
    let jitter = net.frames(link.jitter as int);
    assert(0 <= way.delay <= net.frames(link.delay as int) + jitter) by {
        if link.jitter > 0 {
            let spread = (jitter + 1) as u64;
            assert(spread == jitter + 1);
            assert(net.link_rng.next_below(spread) < spread);
        }
    }
    assert(after.peers == net.peers);
    assert forall|f: usize, t: usize|
        after.frame + after.longest(#[trigger] after.link_between(f, t)) + (packets - 1) + 2
            <= u64::MAX by {
        assert(net.frame + net.longest(net.link_between(f, t)) + packets + 2 <= u64::MAX);
    }
    assert forall|k: u128| #[trigger] after.seq_of(k) + 2 * (packets - 1) <= u64::MAX by {
        assert(net.seq_of(k) + 2 * packets <= u64::MAX);
    }
    assert forall|k: u128| (#[trigger] after.sent_of(k)).packets + (packets - 1) <= u64::MAX
        && after.sent_of(k).bytes + (size - bytes.len()) <= u64::MAX by {
        assert(net.sent_of(k).packets + packets <= u64::MAX);
        assert(net.sent_of(k).bytes + size <= u64::MAX);
    }
    assert forall|k: u128| #[trigger] after.last_of(k) + (packets - 1) <= u64::MAX by {
        assert(net.last_of(k) + packets <= u64::MAX);
    }
    assert forall|i: int| 0 <= i < after.in_flight.len() implies after.packet_in_order(
        #[trigger] after.in_flight[i],
    ) && after.in_flight[i].deliver_at_frame + (packets - 1) <= u64::MAX by {
        if i < net.in_flight.len() {
            assert(net.packet_in_order(net.in_flight[i]));
            assert(net.in_flight[i].deliver_at_frame + packets <= u64::MAX);
        }
        let seq = (net.seq_of(key) + 1) as u64;
        let found = overtaken(net.in_flight, net.in_flight.len(), from, to, seq);
        lemma_overtaken_is_there(net.in_flight, net.in_flight.len(), from, to, seq);
        if found is Some {
            assert(net.packet_in_order(net.in_flight[found->0]));
            assert(net.in_flight[found->0].deliver_at_frame + packets <= u64::MAX);
        }
    }
}

/// Handing the network a packet uses up the room for one, and for what it may be longer.
pub(crate) proof fn lemma_scheduled_keeps(
    net: NetworkView,
    from: usize,
    to: usize,
    bytes: Seq<u8>,
    mode: SendMode,
    packets: int,
    size: int,
)
    requires
        from < net.peers.len(),
        to < net.peers.len(),
        net.in_order(),
        packets >= 1,
        size >= bytes.len() + corruption::total_growth(net.pending_corruptions),
        net.has_room(packets, size),
    ensures
        net.rewritten(from, to, bytes).len() <= bytes.len() + corruption::total_growth(
            net.pending_corruptions,
        ),
        ({
            let after = scheduled(net, from, to, bytes, mode);
            &&& after.in_order()
            &&& after.peers == net.peers
            &&& after.has_room(
                packets - 1,
                size - bytes.len() - corruption::total_growth(net.pending_corruptions)
                    + corruption::total_growth(after.pending_corruptions),
            )
        }),
{
    let ready = net.rewrite_taken(from, to);
    let sent = net.rewritten(from, to, bytes);
    let first = net.corruption_for(from, to);
    corruption::lemma_first_for(net.pending_corruptions, pair_key(from, to));
    if first < net.pending_corruptions.len() {
        corruption::lemma_growth_without(net.pending_corruptions, first);
    }
    lemma_same_flights_same_order(net, ready);
    lemma_same_counters_same_room(net, ready, packets, size);
    lemma_forwarded_keeps(ready, from, to, sent, mode, packets, size);
    lemma_room_for_less(
        scheduled(net, from, to, bytes, mode),
        packets - 1,
        packets - 1,
        size - sent.len(),
        size - bytes.len() - corruption::total_growth(net.pending_corruptions)
            + corruption::total_growth(ready.pending_corruptions),
    );
}

/// A packet that can be overtaken is in flight.
pub(crate) proof fn lemma_overtaken_is_there(
    in_flight: Seq<PacketView>,
    n: nat,
    from: usize,
    to: usize,
    seq: u64,
)
    requires
        n <= in_flight.len(),
    ensures
        overtaken(in_flight, n, from, to, seq) matches Some(i) ==> 0 <= i < n && can_be_overtaken(
            in_flight[i],
            from,
            to,
            seq,
        ),
    decreases n,
{
    if n > 0 {
        lemma_overtaken_is_there(in_flight, (n - 1) as nat, from, to, seq);
    }
}

/// What one client's connection looked like when it was sampled.
#[derive(Debug, Clone, Copy, PartialEq, Eq)]
pub struct Sample {
    pub uuid: u128,
    pub trip: RoundTrip,
}

/// Whether the connection of the peer at `i` is sampled: it is a client that receives.
pub open spec fn is_sampled(net: NetworkView, i: int) -> bool {
    !net.peers[i].is_host && net.peers[i].attachment.receives()
}

/// How many values one sample of a link's jitter can have, in frames.
pub open spec fn jitter_span(net: NetworkView, link: Link) -> u64 {
    (net.frames(link.jitter as int) + 1) as u64
}

/// What the connection of the peer at `i` looks like with these samples of its jitter up and
/// down, in frames.
///
/// The expectation of one uniform draw is half the jitter; over two directions the mean absolute
/// deviation a real estimator converges to comes out at a quarter of the sum.
pub open spec fn trip_of(net: NetworkView, i: int, up_frames: u64, down_frames: u64) -> RoundTrip {
    let up = net.link_between(i as usize, net.host());
    let down = net.link_between(net.host(), i as usize);
    RoundTrip {
        nanos: (up.delay + down.delay + (up_frames + down_frames) * net.frame_duration) as u128,
        jitter_quarter_nanos: (up.jitter + down.jitter) as u128,
    }
}

/// The generator once the connections of the first `n` peers are sampled.
pub open spec fn sampled_rng(net: NetworkView, n: nat) -> SeededRng
    decreases n,
{
    if n == 0 {
        net.link_rng
    } else {
        let rng = sampled_rng(net, (n - 1) as nat);
        let i = n - 1;
        if is_sampled(net, i) {
            rng.after_below(
                jitter_span(net, net.link_between(i as usize, net.host())),
            ).after_below(jitter_span(net, net.link_between(net.host(), i as usize)))
        } else {
            rng
        }
    }
}

/// What the connections of the first `n` peers look like.
pub open spec fn samples(net: NetworkView, n: nat) -> Seq<Sample>
    decreases n,
{
    if n == 0 {
        Seq::empty()
    } else {
        let earlier = samples(net, (n - 1) as nat);
        let i = n - 1;
        if is_sampled(net, i) {
            let rng = sampled_rng(net, i as nat);
            let up_span = jitter_span(net, net.link_between(i as usize, net.host()));
            let down_span = jitter_span(net, net.link_between(net.host(), i as usize));
            earlier.push(
                Sample {
                    uuid: net.peers[i].uuid,
                    trip: trip_of(
                        net,
                        i,
                        rng.next_below(up_span),
                        rng.after_below(up_span).next_below(down_span),
                    ),
                },
            )
        } else {
            earlier
        }
    }
}

/// The first sample of `uuid`'s connection.
pub open spec fn trip_for(samples: Seq<Sample>, uuid: u128) -> Option<RoundTrip>
    decreases samples.len(),
{
    if samples.len() == 0 {
        None
    } else if samples[0].uuid == uuid {
        Some(samples[0].trip)
    } else {
        trip_for(samples.drop_first(), uuid)
    }
}

/// A host's clients once they carry what was sampled.
pub open spec fn measured_clients(clients: Seq<LobbyClient>, samples: Seq<Sample>) -> Seq<
    LobbyClient,
> {
    Seq::new(
        clients.len(),
        |i: int|
            match trip_for(samples, clients[i].uuid) {
                Some(trip) => LobbyClient { rtt: Some(trip), ..clients[i] },
                None => clients[i],
            },
    )
}

/// The peers once the first peer that is `sample.uuid` carries what was sampled, if it has a
/// lobby.
pub open spec fn measured_lobby(peers: Seq<PeerView>, sample: Sample) -> Seq<PeerView> {
    let i = uuid_position(peers, sample.uuid);
    if i < peers.len() && peers[i].lobby is Some {
        peers.update(
            i,
            PeerView {
                lobby: Some(PeerLobby { rtt: Some(sample.trip), ..peers[i].lobby->0 }),
                ..peers[i]
            },
        )
    } else {
        peers
    }
}

/// The peers once their lobbies carry what was sampled.
pub open spec fn measured_lobbies(peers: Seq<PeerView>, samples: Seq<Sample>) -> Seq<PeerView>
    decreases samples.len(),
{
    if samples.len() == 0 {
        peers
    } else {
        measured_lobby(measured_lobbies(peers, samples.drop_last()), samples.last())
    }
}

/// The network once each peer has been told what the connection currently looks like.
pub open spec fn published(net: NetworkView) -> NetworkView {
    let taken = samples(net, net.peers.len());
    let host = net.peers[net.host() as int];
    NetworkView {
        link_rng: sampled_rng(net, net.peers.len()),
        peers: measured_lobbies(
            net.peers.update(
                net.host() as int,
                PeerView { clients: measured_clients(host.clients, taken), ..host },
            ),
            taken,
        ),
        ..net
    }
}

/// The network `frames` frames later: what has come due is delivered, and each peer has been told
/// what the connection looks like.
pub open spec fn advanced(net: NetworkView, frames: u64) -> NetworkView {
    published(delivered(NetworkView { frame: (net.frame + frames) as u64, ..net }))
}

/// The network once it was given a seed.
pub open spec fn seeded(net: NetworkView, seed: u64) -> NetworkView {
    NetworkView {
        link_rng: SeededRng::seeded(seed),
        content_rng: SeededRng::seeded(rng::content_seed(seed)),
        ..net
    }
}

/// The network once the peer at `peer` has one more packet to send.
pub open spec fn sending(
    net: NetworkView,
    peer: usize,
    entity: u64,
    bytes: Seq<u8>,
    mode: SendMode,
) -> NetworkView {
    let before = net.peers[peer as int];
    NetworkView {
        peers: net.peers.update(
            peer as int,
            PeerView {
                outbox: before.outbox.push(OutboxPacketView { entity, bytes, mode }),
                ..before
            },
        ),
        ..net
    }
}

/// The network once it records packets, or does not any more. A record that is there goes on.
pub open spec fn tracing(net: NetworkView, on: bool) -> NetworkView {
    NetworkView {
        trace: if !on {
            None
        } else if net.trace is Some {
            net.trace
        } else {
            Some(Seq::empty())
        },
        ..net
    }
}

/// The network once its record was taken.
pub open spec fn trace_taken(net: NetworkView) -> NetworkView {
    NetworkView {
        trace: match net.trace {
            Some(_) => Some(Seq::empty()),
            None => None,
        },
        ..net
    }
}

/// The network once `count` more unreliable packets of this direction are to be dropped.
pub open spec fn dropping(net: NetworkView, from: usize, to: usize, count: usize) -> NetworkView {
    let key = pair_key(from, to);
    NetworkView {
        pending_drops: net.pending_drops.insert(key, (net.drops_of(key) + count) as usize),
        ..net
    }
}

/// The network once a packet is on its way to `to` that no link carries, as if `sender` had sent
/// it.
pub open spec fn slipped_in(net: NetworkView, to: usize, sender: u128, bytes: Seq<u8>) -> NetworkView {
    let position = uuid_position(net.peers, sender);
    let from = if position < net.peers.len() {
        position as usize
    } else {
        to
    };
    let key = pair_key(from, to);
    let numbered = net.numbered(key);
    numbered.launched(
        PacketView {
            seq: numbered.seq_of(key),
            to,
            from,
            from_uuid: sender,
            bytes,
            reliable: true,
            deliver_at_frame: (net.frame + 1) as u64,
        },
    )
}

/// The network once the peer has read everything that was delivered to it.
pub open spec fn inbox_taken(net: NetworkView, peer: usize) -> NetworkView {
    NetworkView {
        peers: net.peers.update(
            peer as int,
            PeerView { inbox: Seq::empty(), ..net.peers[peer as int] },
        ),
        ..net
    }
}

/// The network one frame later, with everything that was to be sent collected.
pub open spec fn stepped(net: NetworkView) -> NetworkView {
    collected(advanced(net, 1))
}

/// Whether a network has a host, and its clock and counters have room for one more frame.
pub open spec fn can_step(net: NetworkView) -> bool {
    let later = advanced(net, 1);
    &&& net.has_host()
    &&& net.in_order()
    &&& net.frame < u64::MAX
    &&& (NetworkView { frame: (net.frame + 1) as u64, ..net }).clock_has_room(0)
    &&& later.has_room(
        outbound(later).len() as int,
        total_size(outbound(later)) + corruption::total_growth(later.pending_corruptions),
    )
}

/// The network `frames` steps later.
pub open spec fn ran(net: NetworkView, frames: nat) -> NetworkView
    decreases frames,
{
    if frames == 0 {
        net
    } else {
        stepped(ran(net, (frames - 1) as nat))
    }
}

/// Whether a network can go that many steps.
pub open spec fn can_run(net: NetworkView, frames: nat) -> bool {
    forall|i: nat| i < frames ==> can_step(#[trigger] ran(net, i))
}

/// What is told of a connection changes nothing else about the peers.
pub(crate) proof fn lemma_measured_keeps(peers: Seq<PeerView>, samples: Seq<Sample>)
    ensures
        measured_lobbies(peers, samples).len() == peers.len(),
        forall|i: int|
            0 <= i < peers.len() ==> {
                let after = #[trigger] measured_lobbies(peers, samples)[i];
                &&& after == PeerView { lobby: after.lobby, ..peers[i] }
                &&& after.lobby is Some <==> peers[i].lobby is Some
                &&& after.lobby matches Some(lobby) ==> lobby == PeerLobby {
                    rtt: lobby.rtt,
                    ..peers[i].lobby->0
                }
            },
    decreases samples.len(),
{
    if samples.len() > 0 {
        lemma_measured_keeps(peers, samples.drop_last());
        lemma_uuid_found(measured_lobbies(peers, samples.drop_last()), samples.last().uuid);
    }
}

/// Whole frames of jitter are no longer than the jitter and a frame.
pub(crate) proof fn lemma_frames_span(duration: int, frame_duration: int)
    requires
        duration >= 0,
        frame_duration > 0,
    ensures
        link::frames_in(duration, frame_duration) * frame_duration <= duration + frame_duration,
{
    let whole = 2 * duration + frame_duration;
    let unit = 2 * frame_duration;
    let frames = whole / unit;
    vstd::arithmetic::div_mod::lemma_fundamental_div_mod(whole, unit);
    vstd::arithmetic::div_mod::lemma_mod_bound(whole, unit);
    assert(unit * frames == 2 * (frames * frame_duration)) by (nonlinear_arith)
        requires
            unit == 2 * frame_duration,
    ;
}

/// The network with one more peer.
pub open spec fn with_peer(
    net: NetworkView,
    uuid: u128,
    is_host: bool,
    pending: bool,
    host_uuid: u128,
    attachment: Attachment,
) -> NetworkView {
    NetworkView {
        peers: net.peers.push(
            PeerView {
                uuid,
                is_host,
                lobby: Some(PeerLobby { entity: net.next_entity, pending, rtt: None }),
                attachment,
                local_id: None,
                host_uuid: Some(host_uuid),
                clients: Seq::empty(),
                outbox: Seq::empty(),
                inbox: Seq::empty(),
            },
        ),
        next_entity: (net.next_entity + 1) as u64,
        ..net
    }
}

/// The network once the host has a client for `uuid`.
pub open spec fn with_client(net: NetworkView, uuid: u128) -> NetworkView {
    let host = net.peers[net.host() as int];
    NetworkView {
        peers: net.peers.update(
            net.host() as int,
            PeerView {
                clients: host.clients.push(
                    LobbyClient { entity: net.next_entity, uuid, rtt: None },
                ),
                ..host
            },
        ),
        next_entity: (net.next_entity + 1) as u64,
        ..net
    }
}

/// `clients` without the first that is `uuid`.
pub open spec fn without_client(clients: Seq<LobbyClient>, uuid: u128) -> Seq<LobbyClient>
    decreases clients.len(),
{
    if clients.len() == 0 {
        clients
    } else if clients[0].uuid == uuid {
        clients.drop_first()
    } else {
        seq![clients[0]] + without_client(clients.drop_first(), uuid)
    }
}

/// The network once the host has no client for `uuid`.
pub open spec fn client_gone(net: NetworkView, uuid: u128) -> NetworkView {
    let host = net.peers[net.host() as int];
    NetworkView {
        peers: net.peers.update(
            net.host() as int,
            PeerView { clients: without_client(host.clients, uuid), ..host },
        ),
        ..net
    }
}

/// The network once the peer at `i` is attached like this.
pub open spec fn attached(net: NetworkView, i: int, attachment: Attachment) -> NetworkView {
    NetworkView { peers: net.peers.update(i, PeerView { attachment, ..net.peers[i] }), ..net }
}

/// What is not on its way to `peer` (if `incoming`) nor from it (if `outgoing`).
pub open spec fn clear_of(peer: usize, incoming: bool, outgoing: bool) -> spec_fn(
    PacketView,
) -> bool {
    |packet: PacketView| !(incoming && packet.to == peer) && !(outgoing && packet.from == peer)
}

/// The network once the peer has dropped off it.
pub open spec fn disconnected(net: NetworkView, peer: usize) -> NetworkView {
    client_gone(
        NetworkView {
            in_flight: net.in_flight.filter(clear_of(peer, true, false)),
            ..attached(net, peer as int, Attachment::Disconnected)
        },
        net.peers[peer as int].uuid,
    )
}

/// The network once the peer is heard by nobody.
pub open spec fn half_opened(net: NetworkView, peer: usize) -> NetworkView {
    NetworkView {
        in_flight: net.in_flight.filter(clear_of(peer, false, true)),
        ..attached(net, peer as int, Attachment::HalfOpen)
    }
}

/// The network once both directions are open to the peer again.
pub open spec fn reconnected(net: NetworkView, peer: usize) -> NetworkView {
    let before = net.peers[peer as int];
    let open = attached(net, peer as int, Attachment::Connected);
    if before.attachment == Attachment::Disconnected && !before.is_host {
        with_client(open, before.uuid)
    } else {
        open
    }
}

/// The network once the join of a pending client is finished.
pub open spec fn promoted(net: NetworkView, peer: usize) -> NetworkView {
    let before = net.peers[peer as int];
    with_client(
        NetworkView {
            peers: net.peers.update(
                peer as int,
                PeerView {
                    lobby: Some(PeerLobby { pending: false, ..before.lobby->0 }),
                    attachment: Attachment::Connected,
                    ..before
                },
            ),
            ..net
        },
        before.uuid,
    )
}

/// The network once the peer has left: its lobby is gone, the host's client for it is gone, and
/// nothing flows either way.
pub open spec fn left(net: NetworkView, peer: usize) -> NetworkView {
    let before = net.peers[peer as int];
    client_gone(
        NetworkView {
            in_flight: net.in_flight.filter(clear_of(peer, true, true)),
            peers: net.peers.update(
                peer as int,
                PeerView {
                    lobby: None,
                    host_uuid: None,
                    attachment: Attachment::Left,
                    ..before
                },
            ),
            ..net
        },
        before.uuid,
    )
}

/// The network once a peer that left is back, with the same uuid: a fresh lobby, and a fresh
/// client on the host.
pub open spec fn rejoined(net: NetworkView, peer: usize) -> NetworkView {
    let before = net.peers[peer as int];
    with_client(
        NetworkView {
            peers: net.peers.update(
                peer as int,
                PeerView {
                    lobby: Some(
                        PeerLobby { entity: net.next_entity, pending: false, rtt: None },
                    ),
                    host_uuid: Some(net.peers[net.host() as int].uuid),
                    attachment: Attachment::Connected,
                    ..before
                },
            ),
            next_entity: (net.next_entity + 1) as u64,
            ..net
        },
        before.uuid,
    )
}

/// A peer whose host is gone.
pub open spec fn abandoned(peer: PeerView) -> PeerView {
    PeerView {
        lobby: None,
        is_host: false,
        attachment: Attachment::Left,
        host_uuid: None,
        clients: Seq::empty(),
        ..peer
    }
}

/// The network once the host has quit and `new_host` hosts instead: everyone else has left and
/// has to rejoin.
pub open spec fn rehosted(net: NetworkView, new_host: usize) -> NetworkView {
    let gone = Seq::new(net.peers.len(), |i: int| abandoned(net.peers[i]));
    let heir = gone[new_host as int];
    NetworkView {
        peers: gone.update(
            new_host as int,
            PeerView {
                lobby: Some(PeerLobby { entity: net.next_entity, pending: false, rtt: None }),
                is_host: true,
                attachment: Attachment::Connected,
                host_uuid: Some(heir.uuid),
                ..heir
            },
        ),
        in_flight: Seq::empty(),
        last_reliable_delivery: Map::empty(),
        next_seq: Map::empty(),
        known_clients: Map::empty(),
        next_entity: (net.next_entity + 1) as u64,
        ..net
    }
}

} // verus!
