//! Peers, the links between them, and the frame loop.
//!
//! # How it models a bad connection
//!
//! A [`Link`] delays packets by a whole number of frames and the network holds them until they
//! come due. Two decisions in it are worth stating, because getting them wrong would make the
//! tests lie:
//!
//! - **Reliable packets are never dropped, duplicated or reordered.** A reliable transport
//!   retransmits rather than loses, so loss on a reliable packet costs it an extra round trip, and
//!   duplication and reordering do not apply to it at all. Only an unreliable packet is discarded,
//!   delivered twice, or overtaken.
//! - **Per-link order is preserved for reliable traffic.** Jitter moves a reliable packet's
//!   delivery later, never before one sent earlier on the same link.
//!
//! What a peer *is* belongs to the game. The network holds what passes between them: a peer's
//! outbox is filled with [`LoopbackNetwork::send`], and its inbox emptied with
//! [`LoopbackNetwork::take_inbox`].

use std::collections::HashMap;
use vstd::prelude::*;

use super::corruption;
use super::corruption::{Corruption, PendingCorruption};
use super::link::{duration_to_frames, Link};
use super::model;
use super::model::{
    Attachment, InboxPacket, InboxPacketView, LobbyClient, NetworkView, OutboxPacket,
    OutboxPacketView, Peer, PeerLobby, PeerView, Resolved, ResolvedView, RoundTrip, Sample, Sent, PEER_SPAN,
};
use super::packet;
use super::packet::{copy_bytes, Packet, PacketFate, PacketView, PeerId, SentPacket};
use super::rng;
use super::rng::{SeededRng, CONTENT_STREAM, ZERO_SEED};
use crate::transport::SendMode;

verus! {

/// One host, any number of clients, one deterministic clock.
pub struct LoopbackNetwork {
    peers: Vec<Peer>,
    default_link: Link,
    /// Per-direction overrides of the default link.
    links: HashMap<u128, Link>,
    in_flight: Vec<Packet>,
    /// Per-link frame of the last scheduled reliable delivery, so ordering is preserved.
    last_reliable_delivery: HashMap<u128, u64>,
    /// Per-link send-order counter, so delivery within a frame follows send order and an overtake
    /// is a swap of two sequence numbers.
    next_seq: HashMap<u128, u64>,
    frame: u64,
    link_rng: SeededRng,
    content_rng: SeededRng,
    /// How much virtual time one frame represents, in nanoseconds.
    frame_duration: u64,
    trace: Option<Vec<SentPacket>>,
    sent: HashMap<u128, Sent>,
    pending_drops: HashMap<u128, usize>,
    /// The rewrites that wait for a packet, in the order they were asked for.
    pending_corruptions: Vec<PendingCorruption>,
    /// Every client the host has had, and who it stood for. A packet addressed to a client that
    /// is gone this frame — the kick notification is exactly that — still has somewhere to go, as
    /// it does on a transport that keeps the connection open a moment longer than the entity.
    known_clients: HashMap<u64, u128>,
    /// The entity that is spawned next.
    next_entity: u64,
}

/// One direction of one pair, as a number.
fn key_of(from: usize, to: usize) -> (key: u128)
    ensures
        key == model::pair_key(from, to),
{
    from as u128 * PEER_SPAN + to as u128
}

impl View for LoopbackNetwork {
    type V = NetworkView;

    closed spec fn view(&self) -> NetworkView {
        NetworkView {
            peers: model::peer_views(self.peers@),
            default_link: self.default_link,
            links: self.links@,
            in_flight: packet::packet_views(self.in_flight@),
            last_reliable_delivery: self.last_reliable_delivery@,
            next_seq: self.next_seq@,
            frame: self.frame,
            link_rng: self.link_rng,
            content_rng: self.content_rng,
            frame_duration: self.frame_duration,
            trace: match self.trace {
                Some(trace) => Some(packet::sent_views(trace@)),
                None => None,
            },
            sent: self.sent@,
            pending_drops: self.pending_drops@,
            pending_corruptions: corruption::pending_views(self.pending_corruptions@),
            known_clients: self.known_clients@,
            next_entity: self.next_entity,
        }
    }
}

impl LoopbackNetwork {
    /// The link a packet from `from` to `to` crosses.
    pub fn link_between(&self, from: PeerId, to: PeerId) -> (link: Link)
        ensures
            link == self@.link_between(from.0, to.0),
    {
        match self.links.get(&key_of(from.0, to.0)) {
            Some(link) => *link,
            None => self.default_link,
        }
    }

    /// Take the next place in a link's send order.
    fn take_seq(&mut self, key: u128) -> (seq: u64)
        requires
            old(self)@.seq_of(key) < u64::MAX,
        ensures
            final(self)@ == old(self)@.numbered(key),
            seq == final(self)@.seq_of(key),
    {
        let seq: u64 = match self.next_seq.get(&key) {
            Some(seq) => *seq + 1,
            None => 1,
        };
        self.next_seq.insert(key, seq);
        seq
    }

    /// Put a packet and its fate on record.
    fn record(&mut self, from: usize, to: usize, mode: SendMode, bytes: &Vec<u8>, fate: PacketFate)
        requires
            old(self)@.sent_of(model::pair_key(from, to)).packets + 1 <= u64::MAX,
            old(self)@.sent_of(model::pair_key(from, to)).bytes + bytes@.len() <= u64::MAX,
        ensures
            final(self)@ == old(self)@.recorded(from, to, mode, bytes@, fate),
    {
        let key = key_of(from, to);
        let sent = match self.sent.get(&key) {
            Some(sent) => *sent,
            None => Sent { packets: 0, bytes: 0 },
        };
        self.sent.insert(
            key,
            Sent { packets: sent.packets + 1, bytes: sent.bytes + bytes.len() as u64 },
        );
        match self.trace.take() {
            Some(mut trace) => {
                let ghost before = trace@;
                trace.push(
                    SentPacket {
                        frame: self.frame,
                        from: PeerId(from),
                        to: PeerId(to),
                        mode,
                        bytes: copy_bytes(bytes),
                        fate,
                    },
                );
                assert(packet::sent_views(trace@) =~= packet::sent_views(before).push(
                    trace@[before.len() as int]@,
                ));
                self.trace = Some(trace);
            },
            None => {},
        }
    }

    /// Put a packet on its way.
    fn launch(&mut self, packet: Packet)
        ensures
            final(self)@ == old(self)@.launched(packet@),
    {
        self.in_flight.push(packet);
        assert(packet::packet_views(self.in_flight@) =~= packet::packet_views(
            old(self).in_flight@,
        ).push(packet@));
    }

    /// The packet in flight that a packet numbered `seq` on this link can overtake.
    fn find_overtaken(&self, from: usize, to: usize, seq: u64) -> (found: Option<usize>)
        ensures
            found is Some <==> model::overtaken(
                self@.in_flight,
                self@.in_flight.len(),
                from,
                to,
                seq,
            ) is Some,
            found matches Some(i) ==> {
                &&& i < self.in_flight@.len()
                &&& model::overtaken(self@.in_flight, self@.in_flight.len(), from, to, seq) == Some(
                    i as int,
                )
            },
    {
        let mut found: Option<usize> = None;
        let mut i: usize = 0;
        while i < self.in_flight.len()
            invariant
                i <= self.in_flight@.len(),
                match found {
                    Some(best) => best < i && model::overtaken(
                        self@.in_flight,
                        i as nat,
                        from,
                        to,
                        seq,
                    ) == Some(best as int),
                    None => model::overtaken(self@.in_flight, i as nat, from, to, seq) is None,
                },
            decreases self.in_flight.len() - i,
        {
            assert(self@.in_flight[i as int] == self.in_flight@[i as int]@);
            let packet = &self.in_flight[i];
            if !packet.reliable && packet.from == from && packet.to == to && packet.seq < seq {
                let best: bool = match found {
                    Some(best) => {
                        assert(self@.in_flight[best as int] == self.in_flight@[best as int]@);
                        packet.seq >= self.in_flight[best].seq
                    },
                    None => true,
                };
                if best {
                    found = Some(i);
                }
            }
            i += 1;
        }
        found
    }

    /// Let the packet at `i` take the place of one that overtakes it.
    fn set_back(&mut self, i: usize, seq: u64, at: u64)
        requires
            i < old(self)@.in_flight.len(),
        ensures
            final(self)@ == (NetworkView {
                in_flight: old(self)@.in_flight.update(
                    i as int,
                    PacketView {
                        seq,
                        deliver_at_frame: at,
                        ..old(self)@.in_flight[i as int]
                    },
                ),
                ..old(self)@
            }),
    {
        let packet = &self.in_flight[i];
        let moved = Packet {
            seq,
            to: packet.to,
            from: packet.from,
            from_uuid: packet.from_uuid,
            bytes: copy_bytes(&packet.bytes),
            reliable: packet.reliable,
            deliver_at_frame: at,
        };
        self.in_flight.set(i, moved);
        assert(packet::packet_views(self.in_flight@) =~= packet::packet_views(
            old(self).in_flight@,
        ).update(i as int, moved@));
    }

    /// Put a reliable packet that takes `delay` frames on its way.
    fn carry(&mut self, from: usize, to: usize, bytes: Vec<u8>, mode: SendMode, delay: u64)
        requires
            from < old(self)@.peers.len(),
            old(self)@.frame + delay + 1 <= u64::MAX,
            to < old(self)@.peers.len(),
            old(self)@.in_order(),
            old(self)@.has_room(1, bytes@.len() as int),
        ensures
            final(self)@ == model::carried(old(self)@, from, to, bytes@, mode, delay as int),
    {
        let key = key_of(from, to);
        let mut at: u64 = self.frame + if delay > 1 {
            delay
        } else {
            1
        };
        let last: u64 = match self.last_reliable_delivery.get(&key) {
            Some(last) => *last,
            None => 0,
        };
        if at <= last {
            at = last;
        }
        assert(self@.seq_of(key) + 2 <= u64::MAX);
        assert(self@.sent_of(key).packets + 1 <= u64::MAX);
        assert(self@.sent_of(key).bytes + bytes@.len() <= u64::MAX);
        self.last_reliable_delivery.insert(key, at);
        let seq = self.take_seq(key);
        let from_uuid = self.peers[from].uuid;
        self.record(from, to, mode, &bytes, PacketFate::Delivered { at_frame: at });
        self.launch(
            Packet { seq, to, from, from_uuid, bytes, reliable: true, deliver_at_frame: at },
        );
    }

    /// Put an unreliable packet that takes `delay` frames on its way.
    fn throw(&mut self, from: usize, to: usize, bytes: Vec<u8>, mode: SendMode, delay: u64)
        requires
            from < old(self)@.peers.len(),
            old(self)@.frame + delay + 2 <= u64::MAX,
            to < old(self)@.peers.len(),
            old(self)@.in_order(),
            old(self)@.has_room(1, bytes@.len() as int),
        ensures
            final(self)@ == model::thrown(old(self)@, from, to, bytes@, mode, delay as int),
    {
        let key = key_of(from, to);
        let link = self.link_between(PeerId(from), PeerId(to));
        let mut at: u64 = self.frame + if delay > 1 {
            delay
        } else {
            1
        };
        assert(self@.seq_of(key) + 2 <= u64::MAX);
        assert(self@.sent_of(key).packets + 1 <= u64::MAX);
        assert(self@.sent_of(key).bytes + bytes@.len() <= u64::MAX);
        let mut seq = self.take_seq(key);
        let from_uuid = self.peers[from].uuid;
        if link.reorder.0 > 0 && self.link_rng.happens(link.reorder) {
            if let Some(i) = self.find_overtaken(from, to, seq) {
                assert(self@.in_flight[i as int] == self.in_flight@[i as int]@);
                let ahead_seq = self.in_flight[i].seq;
                let ahead_at = self.in_flight[i].deliver_at_frame;
                assert(old(self)@.in_flight[i as int].deliver_at_frame + 1 <= u64::MAX);
                self.set_back(i, seq, at);
                seq = ahead_seq;
                at = ahead_at;
            }
        }
        let mut fate = PacketFate::Delivered { at_frame: at };
        if link.duplicate.0 > 0 && self.link_rng.happens(link.duplicate) {
            let copy_seq = self.take_seq(key);
            self.launch(
                Packet {
                    seq: copy_seq,
                    to,
                    from,
                    from_uuid,
                    bytes: copy_bytes(&bytes),
                    reliable: false,
                    deliver_at_frame: at + 1,
                },
            );
            fate = PacketFate::Duplicated { at_frames: (at, at + 1) };
        }
        self.record(from, to, mode, &bytes, fate);
        self.launch(
            Packet { seq, to, from, from_uuid, bytes, reliable: false, deliver_at_frame: at },
        );
    }

    /// Rewrite a packet's bytes if that was asked for, and take what was asked for off the list.
    fn rewrite(&mut self, from: usize, to: usize, bytes: Vec<u8>) -> (sent: Vec<u8>)
        ensures
            final(self)@ == old(self)@.rewrite_taken(from, to),
            sent@ == old(self)@.rewritten(from, to, bytes@),
    {
        let key = key_of(from, to);
        let mut i: usize = 0;
        while i < self.pending_corruptions.len() && self.pending_corruptions[i].key != key
            invariant
                i <= self.pending_corruptions@.len(),
                *self == *old(self),
                forall|j: int| 0 <= j < i ==> (#[trigger] self@.pending_corruptions[j]).key != key,
            decreases self.pending_corruptions.len() - i,
        {
            assert(self@.pending_corruptions[i as int].key != key);
            i += 1;
        }
        proof {
            corruption::lemma_first_for_is(self@.pending_corruptions, key, i as int);
        }
        if i == self.pending_corruptions.len() {
            return bytes;
        }
        let taken = self.pending_corruptions.remove(i);
        assert(self@.pending_corruptions =~= old(self)@.pending_corruptions.remove(i as int));
        taken.rewrite.apply(bytes)
    }

    /// Hand the network a packet.
    pub fn schedule(&mut self, from: usize, to: usize, bytes: Vec<u8>, mode: SendMode)
        requires
            from < old(self)@.peers.len(),
            to < old(self)@.peers.len(),
            old(self)@.in_order(),
            old(self)@.has_room(1, old(self)@.rewritten(from, to, bytes@).len() as int),
        ensures
            final(self)@ == model::scheduled(old(self)@, from, to, bytes@, mode),
    {
        let sent = self.rewrite(from, to, bytes);
        proof {
            model::lemma_same_flights_same_order(old(self)@, self@);
            model::lemma_same_counters_same_room(old(self)@, self@, 1, sent@.len() as int);
        }
        self.forward(from, to, sent, mode);
    }

    /// Hand a link a packet.
    fn forward(&mut self, from: usize, to: usize, bytes: Vec<u8>, mode: SendMode)
        requires
            from < old(self)@.peers.len(),
            to < old(self)@.peers.len(),
            old(self)@.in_order(),
            old(self)@.has_room(1, bytes@.len() as int),
        ensures
            final(self)@ == model::forwarded(old(self)@, from, to, bytes@, mode),
    {
        assert(self@.peers[from as int] == self.peers@[from as int]@);
        assert(self@.peers[to as int] == self.peers@[to as int]@);
        assert(self@.sent_of(model::pair_key(from, to)).packets + 1 <= u64::MAX);
        assert(self@.sent_of(model::pair_key(from, to)).bytes + bytes@.len() <= u64::MAX);
        if !self.peers[from].attachment.can_send() || !self.peers[to].attachment.can_receive() {
            self.record(from, to, mode, &bytes, PacketFate::Unreachable);
            return;
        }
        let key = key_of(from, to);
        let link = self.link_between(PeerId(from), PeerId(to));
        let reliable = mode.is_reliable();
        if !reliable {
            if let Some(limit) = link.max_message_size {
                if bytes.len() > limit {
                    self.record(from, to, mode, &bytes, PacketFate::Oversize);
                    return;
                }
            }
        }
        proof {
            model::lemma_frames_not_negative(link.delay as int, self.frame_duration as int);
            model::lemma_frames_not_negative(link.jitter as int, self.frame_duration as int);
            model::lemma_frames_not_negative(2 * link.delay, self.frame_duration as int);
        }
        let mut delay: u64 = duration_to_frames(link.delay as u128, self.frame_duration);
        if link.jitter > 0 {
            let spread: u64 = duration_to_frames(link.jitter as u128, self.frame_duration) + 1;
            delay = delay + self.link_rng.below(spread);
        }
        let drops: usize = match self.pending_drops.get(&key) {
            Some(drops) => *drops,
            None => 0,
        };
        let forced = !reliable && drops > 0;
        if forced {
            self.pending_drops.insert(key, drops - 1);
        }
        let lost = forced || (link.loss.0 > 0 && self.link_rng.happens(link.loss));
        proof {
            model::lemma_same_flights_same_order(old(self)@, self@);
            model::lemma_same_counters_same_room(old(self)@, self@, 1, bytes@.len() as int);
        }
        if reliable {
            if lost {
                delay = delay + duration_to_frames(2 * link.delay as u128, self.frame_duration);
            }
            self.carry(from, to, bytes, mode, delay);
        } else if lost {
            self.record(from, to, mode, &bytes, PacketFate::Dropped);
        } else {
            self.throw(from, to, bytes, mode, delay);
        }
    }

    /// Put `packet` into its recipient's inbox, if it can receive.
    fn hand_over(&mut self, packet: Packet)
        requires
            packet.to < old(self)@.peers.len(),
        ensures
            final(self)@ == (NetworkView {
                peers: model::handed(old(self)@.peers, packet@),
                ..old(self)@
            }),
    {
        let to = packet.to;
        assert(self@.peers[to as int] == self.peers@[to as int]@);
        if self.peers[to].attachment.can_receive() {
            let ghost before = self.peers@;
            self.peers[to].inbox.push(
                InboxPacket { sender: packet.from_uuid, bytes: packet.bytes },
            );
            assert(model::inbox_views(self.peers@[to as int].inbox@) =~= model::inbox_views(
                before[to as int].inbox@,
            ).push(InboxPacketView { sender: packet@.from_uuid, bytes: packet@.bytes }));
            assert(model::peer_views(self.peers@) =~= model::handed(
                model::peer_views(before),
                packet@,
            ));
        }
    }
}

/// Put `packet` in its place among sorted ones.
fn insert_sorted(sorted: &mut Vec<Packet>, packet: Packet)
    ensures
        packet::packet_views(final(sorted)@) == model::inserted(
            packet::packet_views(old(sorted)@),
            packet@,
        ),
{
    let mut at: usize = sorted.len();
    while at > 0 && packet.is_before(&sorted[at - 1])
        invariant
            at <= sorted.len(),
            forall|i: int|
                at <= i < sorted.len() ==> packet@.precedes(
                    #[trigger] packet::packet_views(sorted@)[i],
                ),
        decreases at,
    {
        at -= 1;
    }
    proof {
        if at > 0 {
            assert(packet::packet_views(sorted@)[at - 1] == sorted@[at - 1]@);
        }
        model::lemma_inserted_at(packet::packet_views(sorted@), packet@, at as int);
    }
    let ghost before = sorted@;
    sorted.insert(at, packet);
    assert(packet::packet_views(sorted@) =~= packet::packet_views(before).insert(
        at as int,
        packet@,
    ));
}

impl LoopbackNetwork {
    /// Deliver everything that has come due.
    fn deliver_due_packets(&mut self)
        requires
            old(self)@.in_order(),
        ensures
            final(self)@ == model::delivered(old(self)@),
    {
        let frame = self.frame;
        let mut flights: Vec<Packet> = Vec::new();
        std::mem::swap(&mut flights, &mut self.in_flight);
        let ghost views = packet::packet_views(flights@);
        let mut due: Vec<Packet> = Vec::new();
        let mut remaining: Vec<Packet> = Vec::new();
        assert(views.take(0) =~= Seq::<PacketView>::empty());
        assert(packet::packet_views(due@) =~= model::sorted(views.take(0).filter(
            model::due(frame),
        )));
        assert(packet::packet_views(remaining@) =~= views.take(0).filter(model::not_due(frame)));
        for packet in iter: flights
            invariant
                views == packet::packet_views(iter.seq()),
                packet::packet_views(due@) == model::sorted(
                    views.take(iter.index() as int).filter(model::due(frame)),
                ),
                packet::packet_views(remaining@) == views.take(iter.index() as int).filter(
                    model::not_due(frame),
                ),
        {
            proof {
                reveal(Seq::filter);
                let i = iter.index() as int;
                assert(views[i] == packet@);
                assert(views.take(i + 1).drop_last() =~= views.take(i));
                let shorter = views.take(i).filter(model::due(frame));
                assert(shorter.push(packet@).drop_last() =~= shorter);
            }
            if packet.deliver_at_frame <= frame {
                insert_sorted(&mut due, packet);
            } else {
                let ghost before = remaining@;
                remaining.push(packet);
                assert(packet::packet_views(remaining@) =~= packet::packet_views(before).push(
                    packet@,
                ));
            }
        }
        assert(views.take(views.len() as int) =~= views);
        self.in_flight = remaining;
        let ghost order = packet::packet_views(due@);
        let ghost start = self@;
        proof {
            let known = |packet: PacketView| packet.to < start.peers.len();
            assert forall|i: int| 0 <= i < views.len() implies known(#[trigger] views[i]) by {
                assert(old(self)@.packet_in_order(old(self)@.in_flight[i]));
            }
            model::lemma_filtered_all(views, model::due(frame), known);
            model::lemma_sorted_all(views.filter(model::due(frame)), known);
            assert forall|i: int| 0 <= i < order.len() implies (#[trigger] order[i]).to
                < start.peers.len() by {
                assert(known(order[i]));
            }
        }
        assert(order.take(0) =~= Seq::<PacketView>::empty());
        for packet in iter: due
            invariant
                order == packet::packet_views(iter.seq()),
                forall|i: int| 0 <= i < order.len() ==> (#[trigger] order[i]).to
                    < start.peers.len(),
                self@ == (NetworkView {
                    peers: model::all_handed(start.peers, order.take(iter.index() as int)),
                    ..start
                }),
        {
            proof {
                let i = iter.index() as int;
                assert(order[i] == packet@);
                assert(order.take(i + 1).drop_last() =~= order.take(i));
                model::lemma_handed_keeps(start.peers, order.take(i));
            }
            self.hand_over(packet);
        }
        assert(order.take(order.len() as int) =~= order);
    }
}

impl LoopbackNetwork {
    /// The host peer.
    pub fn host(&self) -> (host: PeerId)
        requires
            self@.has_host(),
        ensures
            host.0 == self@.host(),
            host.0 < self@.peers.len(),
    {
        let mut i: usize = 0;
        proof {
            model::lemma_host_found(self@.peers);
        }
        while !self.peers[i].is_host
            invariant
                i < self.peers@.len(),
                self@.has_host(),
                0 <= model::host_position(self@.peers) < self@.peers.len(),
                self@.peers[model::host_position(self@.peers)].is_host,
                i <= model::host_position(self@.peers),
                forall|j: int| 0 <= j < i ==> !(#[trigger] self@.peers[j]).is_host,
            decreases self.peers.len() - i,
        {
            assert(!self@.peers[i as int].is_host);
            i += 1;
        }
        proof {
            assert(self@.peers[i as int].is_host);
            model::lemma_host_position(self@.peers, i as int);
        }
        PeerId(i)
    }

    /// The peer that owns `uuid`, if it is on this network.
    pub fn peer_by_uuid(&self, uuid: u128) -> (found: Option<PeerId>)
        ensures
            match found {
                Some(peer) => peer.0 < self@.peers.len() && peer.0 == model::uuid_position(
                    self@.peers,
                    uuid,
                ),
                None => model::uuid_position(self@.peers, uuid) == self@.peers.len(),
            },
    {
        let mut i: usize = 0;
        while i < self.peers.len()
            invariant
                i <= self.peers@.len(),
                forall|j: int| 0 <= j < i ==> (#[trigger] self@.peers[j]).uuid != uuid,
            decreases self.peers.len() - i,
        {
            if self.peers[i].uuid == uuid {
                proof {
                    assert(self@.peers[i as int].uuid == uuid);
                    model::lemma_uuid_position(self@.peers, uuid, i as int);
                }
                return Some(PeerId(i));
            }
            assert(self@.peers[i as int].uuid != uuid);
            i += 1;
        }
        proof {
            model::lemma_uuid_position(self@.peers, uuid, i as int);
        }
        None
    }

    /// Learn who the host's current clients are.
    fn get_acquainted(&mut self)
        requires
            old(self)@.has_host(),
        ensures
            final(self)@ == model::acquainted(old(self)@),
    {
        let host = self.host().0;
        let mut i: usize = 0;
        let ghost clients = self.peers@[host as int].clients@;
        assert(self@.peers[host as int].clients == clients);
        while i < self.peers[host].clients.len()
            invariant
                host < self.peers@.len(),
                clients == self.peers@[host as int].clients@,
                i <= clients.len(),
                self@ == (NetworkView {
                    known_clients: model::with_clients(
                        old(self)@.known_clients,
                        clients.take(i as int),
                    ),
                    ..old(self)@
                }),
            decreases clients.len() - i,
        {
            assert(clients.take(i + 1).drop_last() =~= clients.take(i as int));
            let client = self.peers[host].clients[i];
            self.known_clients.insert(client.entity, client.uuid);
            i += 1;
        }
        assert(clients.take(i as int) =~= clients);
    }

    /// Who a packet that the peer `from` addresses to `entity` is for.
    fn destination(&self, from: usize, entity: u64, host: usize) -> (to: Option<usize>)
        requires
            from < self@.peers.len(),
            self@.has_host(),
            host == self@.host(),
        ensures
            to == model::destination(self@, from, entity),
            to matches Some(to) ==> to < self@.peers.len(),
    {
        proof {
            model::lemma_host_found(self@.peers);
        }
        assert(self@.peers[from as int].is_host == self.peers@[from as int].is_host);
        if self.peers[from].is_host {
            match self.known_clients.get(&entity) {
                Some(uuid) => match self.peer_by_uuid(*uuid) {
                    Some(peer) => Some(peer.0),
                    None => None,
                },
                None => None,
            }
        } else {
            Some(host)
        }
    }

    /// Drain every peer's outbox: what it held, with its senders and recipients.
    fn resolve_outbound(&mut self) -> (packets: Vec<Resolved>)
        requires
            old(self)@.has_host(),
        ensures
            final(self)@ == model::drained(old(self)@),
            model::resolved_views(packets@) == model::outbound(old(self)@),
            forall|i: int|
                0 <= i < packets@.len() ==> (#[trigger] packets@[i]).from < old(self)@.peers.len()
                    && packets@[i].to < old(self)@.peers.len(),
    {
        let host = self.host().0;
        self.get_acquainted();
        let ghost net = self@;
        let mut packets: Vec<Resolved> = Vec::new();
        let mut index: usize = 0;
        assert(model::resolved_views(packets@) =~= model::resolved(net, 0));
        while index < self.peers.len()
            invariant
                index <= self.peers@.len(),
                self@ == net,
                net.has_host(),
                host == net.host(),
                model::resolved_views(packets@) == model::resolved(net, index as nat),
                forall|i: int|
                    0 <= i < packets@.len() ==> (#[trigger] packets@[i]).from < net.peers.len()
                        && packets@[i].to < net.peers.len(),
            decreases self.peers.len() - index,
        {
            let ghost before = model::resolved(net, index as nat);
            let mut n: usize = 0;
            assert(before + model::resolved_outbox(net, index, 0) =~= before);
            while n < self.peers[index].outbox.len()
                invariant
                    index < self.peers@.len(),
                    n <= self.peers@[index as int].outbox@.len(),
                    self@ == net,
                    net.has_host(),
                    host == net.host(),
                    before == model::resolved(net, index as nat),
                    model::resolved_views(packets@) == before + model::resolved_outbox(
                        net,
                        index,
                        n as nat,
                    ),
                    forall|i: int|
                        0 <= i < packets@.len() ==> (#[trigger] packets@[i]).from
                            < net.peers.len() && packets@[i].to < net.peers.len(),
                decreases self.peers[index as int].outbox@.len() - n,
            {
                let packet = &self.peers[index].outbox[n];
                assert(net.peers[index as int].outbox[n as int] == packet@);
                if let Some(to) = self.destination(index, packet.entity, host) {
                    let ghost views = model::resolved_views(packets@);
                    packets.push(
                        Resolved {
                            from: index,
                            to,
                            bytes: copy_bytes(&packet.bytes),
                            mode: packet.mode,
                        },
                    );
                    assert(model::resolved_views(packets@) =~= views.push(
                        packets@[views.len() as int]@,
                    ));
                    assert(model::resolved_views(packets@) =~= before + model::resolved_outbox(
                        net,
                        index,
                        (n + 1) as nat,
                    ));
                }
                n += 1;
            }
            index += 1;
        }
        let mut index: usize = 0;
        while index < self.peers.len()
            invariant
                index <= self.peers@.len(),
                self.peers@.len() == net.peers.len(),
                self@ == (NetworkView { peers: self@.peers, ..net }),
                forall|i: int| 0 <= i < index ==> #[trigger] self@.peers[i] == (PeerView {
                    outbox: Seq::empty(),
                    ..net.peers[i]
                }),
                forall|i: int| index <= i < net.peers.len() ==> #[trigger] self@.peers[i]
                    == net.peers[i],
            decreases self.peers.len() - index,
        {
            assert(self@.peers[index as int] == net.peers[index as int]);
            let ghost before = self@.peers;
            self.peers[index].outbox.clear();
            assert(model::outbox_views(self.peers@[index as int].outbox@) =~= Seq::empty());
            assert(forall|i: int|
                0 <= i < net.peers.len() && i != index ==> #[trigger] self@.peers[i] == before[i]);
            index += 1;
        }
        assert(self@.peers =~= model::emptied(net.peers));
        packets
    }

    /// Drain every peer's outbox and schedule what it holds.
    pub fn collect_outbound(&mut self)
        requires
            old(self)@.has_host(),
            old(self)@.in_order(),
            old(self)@.has_room(
                model::outbound(old(self)@).len() as int,
                model::total_size(model::outbound(old(self)@)) + corruption::total_growth(
                    old(self)@.pending_corruptions,
                ),
            ),
        ensures
            final(self)@ == model::collected(old(self)@),
    {
        let packets = self.resolve_outbound();
        let ghost views = model::resolved_views(packets@);
        let ghost net = self@;
        proof {
            model::lemma_same_flights_same_order(old(self)@, net);
            model::lemma_same_counters_same_room(
                old(self)@,
                net,
                views.len() as int,
                model::total_size(views) + corruption::total_growth(net.pending_corruptions),
            );
            assert(views.take(0) =~= Seq::<ResolvedView>::empty());
        }
        for packet in iter: packets
            invariant
                views == model::resolved_views(iter.seq()),
                forall|i: int|
                    0 <= i < iter.seq().len() ==> (#[trigger] iter.seq()[i]).from
                        < net.peers.len() && iter.seq()[i].to < net.peers.len(),
                self@ == model::all_scheduled(net, views.take(iter.index() as int)),
                self@.peers == net.peers,
                self@.in_order(),
                self@.has_room(
                    views.len() - iter.index(),
                    model::total_size(views) - model::total_size(views.take(iter.index() as int))
                        + corruption::total_growth(self@.pending_corruptions),
                ),
        {
            proof {
                let i = iter.index() as int;
                assert(views[i] == packet@);
                assert(views.take(i + 1).drop_last() =~= views.take(i));
                lemma_size_grows(views, i + 1);
                let size = model::total_size(views) - model::total_size(views.take(i))
                    + corruption::total_growth(self@.pending_corruptions);
                model::lemma_scheduled_keeps(
                    self@,
                    packet.from,
                    packet.to,
                    packet.bytes@,
                    packet.mode,
                    views.len() - i,
                    size,
                );
                model::lemma_room_for_less(
                    self@,
                    views.len() - i,
                    1,
                    size,
                    self@.rewritten(packet.from, packet.to, packet.bytes@).len() as int,
                );
            }
            self.schedule(packet.from, packet.to, packet.bytes, packet.mode);
        }
        assert(views.take(views.len() as int) =~= views);
    }
}

/// The first packets are no more bytes than all of them.
proof fn lemma_size_grows(packets: Seq<ResolvedView>, n: int)
    requires
        0 <= n <= packets.len(),
    ensures
        model::total_size(packets.take(n)) <= model::total_size(packets),
    decreases packets.len() - n,
{
    if n == packets.len() {
        assert(packets.take(n) =~= packets);
    } else {
        assert(packets.take(n + 1).drop_last() =~= packets.take(n));
        lemma_size_grows(packets, n + 1);
    }
}

/// The first sample of `uuid`'s connection.
fn find_trip(samples: &Vec<Sample>, uuid: u128) -> (found: Option<RoundTrip>)
    ensures
        found == model::trip_for(samples@, uuid),
{
    let mut i: usize = 0;
    assert(samples@.skip(0) =~= samples@);
    while i < samples.len()
        invariant
            i <= samples@.len(),
            model::trip_for(samples@.skip(i as int), uuid) == model::trip_for(samples@, uuid),
        decreases samples.len() - i,
    {
        assert(samples@.skip(i as int).drop_first() =~= samples@.skip(i + 1));
        if samples[i].uuid == uuid {
            return Some(samples[i].trip);
        }
        i += 1;
    }
    None
}

impl LoopbackNetwork {
    /// One sample of the same distribution that packets are delayed by, in frames.
    fn sample_jitter(&mut self, link: Link) -> (frames: u64)
        requires
            old(self)@.frames(link.jitter as int) < u64::MAX,
        ensures
            frames == old(self)@.link_rng.next_below(model::jitter_span(old(self)@, link)),
            frames <= old(self)@.frames(link.jitter as int),
            final(self)@ == (NetworkView {
                link_rng: old(self)@.link_rng.after_below(model::jitter_span(old(self)@, link)),
                ..old(self)@
            }),
    {
        proof {
            model::lemma_frames_not_negative(link.jitter as int, self.frame_duration as int);
        }
        let span: u64 = duration_to_frames(link.jitter as u128, self.frame_duration) + 1;
        self.link_rng.below(span)
    }

    /// Sample every client's connection.
    fn sample_clients(&mut self) -> (samples: Vec<Sample>)
        requires
            old(self)@.has_host(),
            old(self)@.clock_has_room(0),
        ensures
            samples@ == model::samples(old(self)@, old(self)@.peers.len()),
            final(self)@ == (NetworkView {
                link_rng: model::sampled_rng(old(self)@, old(self)@.peers.len()),
                ..old(self)@
            }),
    {
        let host = self.host();
        let ghost net = self@;
        let mut samples: Vec<Sample> = Vec::new();
        let mut i: usize = 0;
        while i < self.peers.len()
            invariant
                i <= self.peers@.len(),
                self.peers@.len() == net.peers.len(),
                net.clock_has_room(0),
                host.0 == net.host(),
                samples@ == model::samples(net, i as nat),
                self@ == (NetworkView { link_rng: model::sampled_rng(net, i as nat), ..net }),
            decreases self.peers.len() - i,
        {
            assert(self@.peers[i as int] == self.peers@[i as int]@);
            if !self.peers[i].is_host && self.peers[i].attachment.can_receive() {
                let up = self.link_between(PeerId(i), host);
                let down = self.link_between(host, PeerId(i));
                proof {
                    assert(up == net.link_between(i, net.host()));
                    assert(down == net.link_between(net.host(), i));
                    lemma_room_for_jitter(net, i, net.host());
                    lemma_room_for_jitter(net, net.host(), i);
                }
                let up_frames = self.sample_jitter(up);
                let down_frames = self.sample_jitter(down);
                proof {
                    lemma_jitter_fits(up_frames, up.jitter, self.frame_duration);
                    lemma_jitter_fits(down_frames, down.jitter, self.frame_duration);
                    assert((up_frames + down_frames) * self.frame_duration == up_frames
                        * self.frame_duration + down_frames * self.frame_duration)
                        by (nonlinear_arith);
                }
                let frame_duration: u128 = self.frame_duration as u128;
                let jitter: u128 = up_frames as u128 * frame_duration + down_frames as u128
                    * frame_duration;
                samples.push(
                    Sample {
                        uuid: self.peers[i].uuid,
                        trip: RoundTrip {
                            nanos: up.delay as u128 + down.delay as u128 + jitter,
                            jitter_quarter_nanos: up.jitter as u128 + down.jitter as u128,
                        },
                    },
                );
            }
            i += 1;
        }
        samples
    }

    /// Tell each peer what the connection currently looks like.
    ///
    /// The published value carries the link's jitter, not just its mean. That detail is
    /// load-bearing for any game that sizes a buffer from observed variance: a perfectly steady
    /// ping over a jittery link would tell it there is no jitter to protect against.
    pub fn publish_peer_rtt(&mut self)
        requires
            old(self)@.has_host(),
            old(self)@.clock_has_room(0),
        ensures
            final(self)@ == model::published(old(self)@),
    {
        let host = self.host().0;
        let samples = self.sample_clients();
        let ghost net = self@;
        let ghost clients = self.peers@[host as int].clients@;
        let ghost measured = model::measured_clients(clients, samples@);
        let mut i: usize = 0;
        assert(net.peers[host as int].clients == clients);
        while i < self.peers[host].clients.len()
            invariant
                host < self.peers@.len(),
                net.peers.len() == self.peers@.len(),
                net.peers[host as int].clients == clients,
                i <= clients.len(),
                measured == model::measured_clients(clients, samples@),
                self.peers@[host as int].clients@ =~= measured.take(i as int) + clients.skip(
                    i as int,
                ),
                self@ =~= (NetworkView {
                    peers: net.peers.update(
                        host as int,
                        PeerView {
                            clients: self.peers@[host as int].clients@,
                            ..net.peers[host as int]
                        },
                    ),
                    ..net
                }),
            decreases clients.len() - i,
        {
            let mut client = self.peers[host].clients[i];
            assert(client == clients[i as int]);
            let ghost before = self.peers@;
            if let Some(trip) = find_trip(&samples, client.uuid) {
                client.rtt = Some(trip);
                self.peers[host].clients.set(i, client);
            }
            assert(self.peers@[host as int].clients@ =~= before[host as int].clients@.update(
                i as int,
                measured[i as int],
            ));
            assert(forall|j: int|
                0 <= j < before.len() && j != host ==> self.peers@[j] == before[j]);
            assert(model::peer_views(before) =~= net.peers.update(
                host as int,
                model::peer_views(before)[host as int],
            ));
            assert forall|j: int| 0 <= j < before.len() && j != host implies self.peers@[j]@
                == net.peers[j] by {
                assert(model::peer_views(before)[j] == before[j]@);
            }
            assert(model::peer_views(self.peers@) =~= net.peers.update(
                host as int,
                self.peers@[host as int]@,
            ));
            assert(model::peer_views(before)[host as int] == before[host as int]@);
            i += 1;
        }
        assert(self.peers@[host as int].clients@ =~= measured);
        let ghost told = self@;
        let mut n: usize = 0;
        assert(samples@.take(0) =~= Seq::<Sample>::empty());
        while n < samples.len()
            invariant
                n <= samples@.len(),
                self@ == (NetworkView {
                    peers: model::measured_lobbies(told.peers, samples@.take(n as int)),
                    ..told
                }),
            decreases samples.len() - n,
        {
            assert(samples@.take(n + 1).drop_last() =~= samples@.take(n as int));
            let sample = samples[n];
            self.measure_lobby(sample);
            n += 1;
        }
        assert(samples@.take(n as int) =~= samples@);
    }

    /// Tell the peer that was sampled what was found, if it has a lobby.
    fn measure_lobby(&mut self, sample: Sample)
        ensures
            final(self)@ == (NetworkView {
                peers: model::measured_lobby(old(self)@.peers, sample),
                ..old(self)@
            }),
    {
        if let Some(peer) = self.peer_by_uuid(sample.uuid) {
            let ghost before = self.peers@;
            assert(self@.peers[peer.0 as int] == before[peer.0 as int]@);
            if let Some(lobby) = self.peers[peer.0].lobby {
                self.peers[peer.0].lobby = Some(
                    PeerLobby {
                        entity: lobby.entity,
                        pending: lobby.pending,
                        rtt: Some(sample.trip),
                    },
                );
                assert(self@.peers =~= model::measured_lobby(old(self)@.peers, sample));
            }
        }
    }

    /// Advance the clock by `frames` and deliver everything that has come due.
    ///
    /// Split out from [`step`](Self::step) so a caller can do something to the peers between the
    /// delivery and the sending — running several ticks inside one frame, say.
    pub fn advance(&mut self, frames: u64)
        requires
            old(self)@.has_host(),
            old(self)@.in_order(),
            old(self)@.frame + frames <= u64::MAX,
            (NetworkView {
                frame: (old(self)@.frame + frames) as u64,
                ..old(self)@
            }).clock_has_room(0),
        ensures
            final(self)@ == model::advanced(old(self)@, frames),
    {
        self.frame = self.frame + frames;
        let ghost later = self@;
        proof {
            model::lemma_same_flights_same_order(old(self)@, later);
        }
        self.deliver_due_packets();
        proof {
            lemma_delivered_keeps(later);
        }
        self.publish_peer_rtt();
    }

    /// Advance every peer by exactly one frame: deliver what is due, then collect what is to be
    /// sent.
    pub fn step(&mut self)
        requires
            model::can_step(old(self)@),
        ensures
            final(self)@ == model::stepped(old(self)@),
    {
        self.advance(1);
        proof {
            lemma_advanced_keeps(old(self)@, 1);
        }
        self.collect_outbound();
    }

    /// Step `frames` times.
    pub fn run(&mut self, frames: usize)
        requires
            model::can_run(old(self)@, frames as nat),
        ensures
            final(self)@ == model::ran(old(self)@, frames as nat),
    {
        let mut done: usize = 0;
        while done < frames
            invariant
                done <= frames,
                model::can_run(old(self)@, frames as nat),
                self@ == model::ran(old(self)@, done as nat),
            decreases frames - done,
        {
            proof {
                lemma_can_go_on(old(self)@, frames as nat, done as nat);
            }
            self.step();
            done += 1;
        }
    }

    /// Step until `condition` holds, at most `max_frames` times: whether it came to hold.
    ///
    /// It is asked before each step and once after the last.
    pub fn run_until<F: Fn(&LoopbackNetwork) -> bool>(
        &mut self,
        max_frames: usize,
        condition: F,
    ) -> (held: bool)
        requires
            model::can_run(old(self)@, max_frames as nat),
            forall|net: &LoopbackNetwork| call_requires(condition, (net,)),
        ensures
            call_ensures(condition, (&*final(self),), held),
            exists|frames: nat|
                frames <= max_frames && final(self)@ == #[trigger] model::ran(old(self)@, frames)
                    && (!held ==> frames == max_frames) && refused_until(
                    condition,
                    old(self)@,
                    frames,
                ),
    {
        let mut done: usize = 0;
        while done < max_frames
            invariant
                done <= max_frames,
                model::can_run(old(self)@, max_frames as nat),
                forall|net: &LoopbackNetwork| call_requires(condition, (net,)),
                self@ == model::ran(old(self)@, done as nat),
                refused_until(condition, old(self)@, done as nat),
            decreases max_frames - done,
        {
            if condition(self) {
                return true;
            }
            proof {
                lemma_refused_once_more(condition, *self, old(self)@, done as nat);
                lemma_can_go_on(old(self)@, max_frames as nat, done as nat);
            }
            self.step();
            done += 1;
        }
        condition(self)
    }
}

/// Whether `condition` was found not to hold of a network like this.
pub open spec fn refused_at<F: Fn(&LoopbackNetwork) -> bool>(
    condition: F,
    net: NetworkView,
) -> bool {
    exists|seen: LoopbackNetwork| #[trigger]
        seen@ == net && call_ensures(condition, (&seen,), false)
}

/// Whether `condition` was found not to hold before each of the first `frames` steps.
pub open spec fn refused_until<F: Fn(&LoopbackNetwork) -> bool>(
    condition: F,
    net: NetworkView,
    frames: nat,
) -> bool {
    forall|i: nat| i < frames ==> refused_at(condition, #[trigger] model::ran(net, i))
}

/// A condition found not to hold before each of the first steps, and not after them either.
proof fn lemma_refused_once_more<F: Fn(&LoopbackNetwork) -> bool>(
    condition: F,
    seen: LoopbackNetwork,
    net: NetworkView,
    frames: nat,
)
    requires
        refused_until(condition, net, frames),
        seen@ == model::ran(net, frames),
        call_ensures(condition, (&seen,), false),
    ensures
        refused_until(condition, net, frames + 1),
{
    assert(refused_at(condition, model::ran(net, frames)));
    assert forall|i: nat| i < frames + 1 implies refused_at(
        condition,
        #[trigger] model::ran(net, i),
    ) by {
        if i < frames {
            assert(refused_at(condition, model::ran(net, i)));
        }
    }
}

/// A network that can take all of a number of steps can take the one that is next.
proof fn lemma_can_go_on(net: NetworkView, frames: nat, done: nat)
    requires
        model::can_run(net, frames),
        done < frames,
    ensures
        model::can_step(model::ran(net, done)),
        model::stepped(model::ran(net, done)) == model::ran(net, done + 1),
{
}

/// There is room for every value a sample of a link's jitter can have.
proof fn lemma_room_for_jitter(net: NetworkView, from: usize, to: usize)
    requires
        net.clock_has_room(0),
    ensures
        net.frames(net.link_between(from, to).jitter as int) < u64::MAX,
{
    let link = net.link_between(from, to);
    assert(net.frame + net.longest(link) + 2 <= u64::MAX);
    model::lemma_frames_not_negative(link.delay as int, net.frame_duration as int);
    model::lemma_frames_not_negative(2 * link.delay, net.frame_duration as int);
}

/// A sample of a link's jitter is no longer than the jitter and a frame.
proof fn lemma_jitter_fits(frames: u64, jitter: u64, frame_duration: u64)
    requires
        frames <= super::link::frames_in(jitter as int, frame_duration as int),
    ensures
        frames * frame_duration <= jitter + frame_duration,
{
    if frame_duration > 0 {
        model::lemma_frames_span(jitter as int, frame_duration as int);
        let most = super::link::frames_in(jitter as int, frame_duration as int);
        assert(frames * frame_duration <= most * frame_duration) by (nonlinear_arith)
            requires
                frames <= most,
                frame_duration > 0,
        ;
    } else {
        assert(frames * frame_duration == 0) by (nonlinear_arith)
            requires
                frame_duration == 0,
        ;
    }
}

/// Delivery keeps who hosts, where packets go and the room there is.
proof fn lemma_delivered_keeps(net: NetworkView)
    requires
        net.in_order(),
        net.has_host(),
        net.clock_has_room(0),
    ensures
        model::delivered(net).in_order(),
        model::delivered(net).has_host(),
        model::delivered(net).host() == net.host(),
        model::delivered(net).clock_has_room(0),
        model::delivered(net).peers.len() == net.peers.len(),
{
    let after = model::delivered(net);
    let known = |packet: PacketView| net.packet_in_order(packet);
    assert forall|i: int| 0 <= i < net.in_flight.len() implies known(
        #[trigger] net.in_flight[i],
    ) by {}
    model::lemma_filtered_all(net.in_flight, model::not_due(net.frame), known);
    model::lemma_filtered_all(net.in_flight, model::due(net.frame), known);
    let due = net.in_flight.filter(model::due(net.frame));
    model::lemma_sorted_all(due, known);
    assert forall|i: int| 0 <= i < due.len() implies (#[trigger] model::sorted(due)[i]).to
        < net.peers.len() by {
        assert(known(model::sorted(due)[i]));
    }
    model::lemma_handed_keeps(net.peers, model::sorted(due));
    model::lemma_same_hosts(net.peers, after.peers);
    assert forall|i: int| 0 <= i < after.in_flight.len() implies after.packet_in_order(
        #[trigger] after.in_flight[i],
    ) by {
        assert(known(after.in_flight[i]));
    }
    assert forall|from: usize, to: usize|
        after.frame + after.longest(#[trigger] after.link_between(from, to)) + 0 + 2
            <= u64::MAX by {
        assert(net.frame + net.longest(net.link_between(from, to)) + 0 + 2 <= u64::MAX);
    }
}

/// Time that passes keeps who hosts and where packets go.
pub(crate) proof fn lemma_advanced_keeps(net: NetworkView, frames: u64)
    requires
        net.in_order(),
        net.has_host(),
        net.frame + frames <= u64::MAX,
        (NetworkView { frame: (net.frame + frames) as u64, ..net }).clock_has_room(0),
    ensures
        model::advanced(net, frames).in_order(),
        model::advanced(net, frames).has_host(),
        model::advanced(net, frames).host() == net.host(),
        model::advanced(net, frames).peers.len() == net.peers.len(),
{
    let later = NetworkView { frame: (net.frame + frames) as u64, ..net };
    model::lemma_same_flights_same_order(net, later);
    lemma_delivered_keeps(later);
    let delivered = model::delivered(later);
    model::lemma_host_found(delivered.peers);
    let taken = model::samples(delivered, delivered.peers.len());
    let host = delivered.peers[delivered.host() as int];
    let told = delivered.peers.update(
        delivered.host() as int,
        PeerView { clients: model::measured_clients(host.clients, taken), ..host },
    );
    model::lemma_measured_keeps(told, taken);
    let after = model::advanced(net, frames);
    model::lemma_same_hosts(delivered.peers, after.peers);
    model::lemma_same_flights_same_order(delivered, after);
}

impl LoopbackNetwork {
    /// A network whose frames are `frame_duration` nanoseconds of virtual time each.
    ///
    /// Pass whatever one update of a peer represents in the game being tested — usually its tick
    /// duration, since a test that pins one tick to one frame is the easiest kind to reason
    /// about.
    pub fn new(frame_duration: u64) -> (net: Self)
        ensures
            net@ == (NetworkView {
                peers: Seq::empty(),
                default_link: super::link::perfect_link(),
                links: Map::empty(),
                in_flight: Seq::empty(),
                last_reliable_delivery: Map::empty(),
                next_seq: Map::empty(),
                frame: 0,
                link_rng: SeededRng::seeded(ZERO_SEED),
                content_rng: SeededRng::seeded(rng::content_seed(ZERO_SEED)),
                frame_duration,
                trace: None,
                sent: Map::empty(),
                pending_drops: Map::empty(),
                pending_corruptions: Seq::empty(),
                known_clients: Map::empty(),
                next_entity: 0,
            }),
    {
        let mut net = LoopbackNetwork {
            peers: Vec::new(),
            default_link: Link::perfect(),
            links: HashMap::new(),
            in_flight: Vec::new(),
            last_reliable_delivery: HashMap::new(),
            next_seq: HashMap::new(),
            frame: 0,
            link_rng: SeededRng::new(0),
            content_rng: SeededRng::new(0),
            frame_duration,
            trace: None,
            sent: HashMap::new(),
            pending_drops: HashMap::new(),
            pending_corruptions: Vec::new(),
            known_clients: HashMap::new(),
            next_entity: 0,
        };
        net.seed(ZERO_SEED);
        assert(net@.peers =~= Seq::empty());
        assert(net@.in_flight =~= Seq::empty());
        assert(net@.pending_corruptions =~= Seq::empty());
        net
    }

    /// Pick the run. Two networks with the same seed, peers and inputs produce the same trace.
    pub fn seed(&mut self, seed: u64)
        ensures
            final(self)@ == model::seeded(old(self)@, seed),
    {
        self.link_rng = SeededRng::new(seed);
        self.content_rng = SeededRng::new(((seed << 32) | (seed >> 32)) ^ CONTENT_STREAM);
    }

    /// A generator for the test's own content, seeded with the network.
    pub fn rng(&mut self) -> (rng: &mut SeededRng)
        ensures
            *rng == old(self)@.content_rng,
            final(self)@ == (NetworkView { content_rng: *final(rng), ..old(self)@ }),
    {
        &mut self.content_rng
    }

    // ---- attaching peers -------------------------------------------------------------------

    fn push_peer(
        &mut self,
        uuid: u128,
        is_host: bool,
        pending: bool,
        host_uuid: u128,
        attachment: Attachment,
    ) -> (peer: PeerId)
        requires
            old(self)@.next_entity < u64::MAX,
        ensures
            peer.0 == old(self)@.peers.len(),
            final(self)@ == model::with_peer(
                old(self)@,
                uuid,
                is_host,
                pending,
                host_uuid,
                attachment,
            ),
    {
        let peer = PeerId(self.peers.len());
        let entity = self.next_entity;
        self.next_entity = entity + 1;
        let added = Peer {
            uuid,
            is_host,
            lobby: Some(PeerLobby { entity, pending, rtt: None }),
            attachment,
            local_id: None,
            host_uuid: Some(host_uuid),
            clients: Vec::new(),
            outbox: Vec::new(),
            inbox: Vec::new(),
        };
        assert(added@.outbox =~= Seq::empty());
        assert(added@.inbox =~= Seq::empty());
        self.peers.push(added);
        assert(self@.peers =~= old(self)@.peers.push(added@));
        peer
    }

    fn spawn_lobby_client(&mut self, uuid: u128)
        requires
            old(self)@.has_host(),
            old(self)@.next_entity < u64::MAX,
        ensures
            final(self)@ == model::with_client(old(self)@, uuid),
    {
        let host = self.host().0;
        let entity = self.next_entity;
        self.next_entity = entity + 1;
        self.peers[host].clients.push(LobbyClient { entity, uuid, rtt: None });
        assert(self@.peers =~= model::with_client(old(self)@, uuid).peers);
    }

    fn despawn_lobby_client(&mut self, uuid: u128)
        requires
            old(self)@.has_host(),
        ensures
            final(self)@ == model::client_gone(old(self)@, uuid),
    {
        let host = self.host().0;
        let ghost clients = self.peers@[host as int].clients@;
        assert(self@.peers[host as int].clients == clients);
        let mut i: usize = 0;
        assert(clients.take(0) + model::without_client(clients.skip(0), uuid)
            =~= model::without_client(clients, uuid)) by {
            assert(clients.skip(0) =~= clients);
        }
        while i < self.peers[host].clients.len()
            invariant
                host < self.peers@.len(),
                self@ == old(self)@,
                host == old(self)@.host(),
                clients == self.peers@[host as int].clients@,
                i <= clients.len(),
                clients.take(i as int) + model::without_client(clients.skip(i as int), uuid)
                    == model::without_client(clients, uuid),
            decreases clients.len() - i,
        {
            assert(clients.skip(i as int).drop_first() =~= clients.skip(i + 1));
            if self.peers[host].clients[i].uuid == uuid {
                assert(clients.remove(i as int) =~= clients.take(i as int) + clients.skip(i + 1));
                self.peers[host].clients.remove(i);
                assert(self@.peers =~= model::client_gone(old(self)@, uuid).peers);
                return;
            }
            assert(clients.take(i as int) + (seq![clients[i as int]] + model::without_client(
                clients.skip(i + 1),
                uuid,
            )) =~= clients.take(i + 1) + model::without_client(clients.skip(i + 1), uuid));
            i += 1;
        }
        assert(clients.take(i as int) + model::without_client(clients.skip(i as int), uuid)
            =~= clients);
        assert(self@.peers =~= model::client_gone(old(self)@, uuid).peers);
    }

    /// Attach a host, with the lobby a real backend would give it.
    pub fn add_host(&mut self, uuid: u128) -> (peer: PeerId)
        requires
            old(self)@.next_entity < u64::MAX,
        ensures
            peer.0 == old(self)@.peers.len(),
            final(self)@ == model::with_peer(
                old(self)@,
                uuid,
                true,
                false,
                uuid,
                Attachment::Connected,
            ),
    {
        self.push_peer(uuid, true, false, uuid, Attachment::Connected)
    }

    /// Attach a client and open the connection: it has its own lobby and knows who hosts it, and
    /// the host has a client for it.
    ///
    /// The client learns its host's identity before any packet is decoded, which is what
    /// host-only messages are checked against.
    pub fn add_client(&mut self, uuid: u128) -> (peer: PeerId)
        requires
            old(self)@.has_host(),
            old(self)@.peers.len() < usize::MAX,
            old(self)@.next_entity < u64::MAX - 1,
        ensures
            peer.0 == old(self)@.peers.len(),
            final(self)@ == model::with_client(
                model::with_peer(
                    old(self)@,
                    uuid,
                    false,
                    false,
                    old(self)@.peers[old(self)@.host() as int].uuid,
                    Attachment::Connected,
                ),
                uuid,
            ),
    {
        let host = self.host();
        let host_uuid = self.peers[host.0].uuid;
        assert(self@.peers[host.0 as int].uuid == host_uuid);
        let peer = self.push_peer(uuid, false, false, host_uuid, Attachment::Connected);
        proof {
            lemma_pushed_host(old(self)@, self@);
        }
        self.spawn_lobby_client(uuid);
        peer
    }

    /// Attach a client whose join is not finished: the data channel is up, packets flow, but the
    /// client holds a pending lobby and the host has no client for it.
    ///
    /// This is the window a real backend has between the transport connecting and the lobby being
    /// promoted. [`promote`](Self::promote) closes it.
    pub fn add_pending_client(&mut self, uuid: u128) -> (peer: PeerId)
        requires
            old(self)@.has_host(),
            old(self)@.next_entity < u64::MAX,
        ensures
            peer.0 == old(self)@.peers.len(),
            final(self)@ == model::with_peer(
                old(self)@,
                uuid,
                false,
                true,
                old(self)@.peers[old(self)@.host() as int].uuid,
                Attachment::Pending,
            ),
    {
        let host = self.host();
        let host_uuid = self.peers[host.0].uuid;
        assert(self@.peers[host.0 as int].uuid == host_uuid);
        self.push_peer(uuid, false, true, host_uuid, Attachment::Pending)
    }

    /// Finish a pending client's join: the client's lobby is not pending any more, the host gets
    /// its client.
    pub fn promote(&mut self, peer: PeerId)
        requires
            peer.0 < old(self)@.peers.len(),
            old(self)@.has_host(),
            old(self)@.peers[peer.0 as int].attachment == Attachment::Pending,
            old(self)@.peers[peer.0 as int].lobby is Some,
            old(self)@.next_entity < u64::MAX,
        ensures
            final(self)@ == model::promoted(old(self)@, peer.0),
    {
        let ghost before = self@;
        assert(before.peers[peer.0 as int] == self.peers@[peer.0 as int]@);
        let uuid = self.peers[peer.0].uuid;
        if let Some(lobby) = self.peers[peer.0].lobby {
            self.peers[peer.0].lobby = Some(
                PeerLobby { entity: lobby.entity, pending: false, rtt: lobby.rtt },
            );
        }
        self.peers[peer.0].attachment = Attachment::Connected;
        proof {
            let now = PeerView {
                lobby: Some(
                    PeerLobby { pending: false, ..before.peers[peer.0 as int].lobby->0 },
                ),
                attachment: Attachment::Connected,
                ..before.peers[peer.0 as int]
            };
            assert(self.peers@[peer.0 as int]@ == now);
            assert(self@.peers =~= before.peers.update(peer.0 as int, now));
            model::lemma_same_hosts(before.peers, self@.peers);
        }
        self.spawn_lobby_client(uuid);
    }

    /// Set or clear who this peer has been told it is.
    ///
    /// `None` is the window before the identity is known: a real backend does not know the peer's
    /// identity until the signalling server or the platform says so.
    pub fn set_local_id(&mut self, peer: PeerId, id: Option<u128>)
        requires
            peer.0 < old(self)@.peers.len(),
        ensures
            final(self)@ == (NetworkView {
                peers: old(self)@.peers.update(
                    peer.0 as int,
                    PeerView { local_id: id, ..old(self)@.peers[peer.0 as int] },
                ),
                ..old(self)@
            }),
    {
        self.peers[peer.0].local_id = id;
        assert(self@.peers =~= old(self)@.peers.update(
            peer.0 as int,
            PeerView { local_id: id, ..old(self)@.peers[peer.0 as int] },
        ));
    }

    // ---- detaching, reattaching ------------------------------------------------------------

    fn attach(&mut self, peer: usize, attachment: Attachment)
        requires
            peer < old(self)@.peers.len(),
        ensures
            final(self)@ == model::attached(old(self)@, peer as int, attachment),
            model::host_position(final(self)@.peers) == model::host_position(old(self)@.peers),
    {
        self.peers[peer].attachment = attachment;
        assert(self@.peers =~= old(self)@.peers.update(
            peer as int,
            PeerView { attachment, ..old(self)@.peers[peer as int] },
        ));
        proof {
            model::lemma_same_hosts(old(self)@.peers, self@.peers);
        }
    }

    /// Drop what is on its way to the peer (if `incoming`) and from it (if `outgoing`).
    fn clear_flights(&mut self, peer: usize, incoming: bool, outgoing: bool)
        ensures
            final(self)@ == (NetworkView {
                in_flight: old(self)@.in_flight.filter(model::clear_of(peer, incoming, outgoing)),
                ..old(self)@
            }),
    {
        let mut flights: Vec<Packet> = Vec::new();
        std::mem::swap(&mut flights, &mut self.in_flight);
        let ghost views = packet::packet_views(flights@);
        let ghost keep = model::clear_of(peer, incoming, outgoing);
        let mut kept: Vec<Packet> = Vec::new();
        assert(views.take(0) =~= Seq::<PacketView>::empty());
        assert(packet::packet_views(kept@) =~= views.take(0).filter(keep));
        for packet in iter: flights
            invariant
                views == packet::packet_views(iter.seq()),
                keep == model::clear_of(peer, incoming, outgoing),
                packet::packet_views(kept@) == views.take(iter.index() as int).filter(keep),
        {
            proof {
                reveal(Seq::filter);
                let i = iter.index() as int;
                assert(views[i] == packet@);
                assert(views.take(i + 1).drop_last() =~= views.take(i));
            }
            if !(incoming && packet.to == peer) && !(outgoing && packet.from == peer) {
                let ghost before = kept@;
                kept.push(packet);
                assert(packet::packet_views(kept@) =~= packet::packet_views(before).push(packet@));
            }
        }
        assert(views.take(views.len() as int) =~= views);
        self.in_flight = kept;
    }

    /// Drop a peer off the network. Nothing reaches it any more.
    ///
    /// The host's client goes, as a backend would see to on disconnect. The client's own lobby is
    /// left standing, as it would be until the client noticed.
    pub fn disconnect(&mut self, peer: PeerId)
        requires
            peer.0 < old(self)@.peers.len(),
            old(self)@.has_host(),
        ensures
            final(self)@ == model::disconnected(old(self)@, peer.0),
    {
        let uuid = self.peers[peer.0].uuid;
        assert(self@.peers[peer.0 as int].uuid == uuid);
        self.attach(peer.0, Attachment::Disconnected);
        self.clear_flights(peer.0, true, false);
        self.despawn_lobby_client(uuid);
    }

    /// A peer that still receives everything and is heard by nobody.
    ///
    /// The shape of an expired NAT binding, a frozen process whose OS still acks, or a
    /// backgrounded tab: from every other peer's point of view it has gone silent, and nothing in
    /// the transport has said so.
    pub fn half_open(&mut self, peer: PeerId)
        requires
            peer.0 < old(self)@.peers.len(),
        ensures
            final(self)@ == model::half_opened(old(self)@, peer.0),
    {
        self.attach(peer.0, Attachment::HalfOpen);
        self.clear_flights(peer.0, false, true);
    }

    /// Undo [`disconnect`](Self::disconnect) or [`half_open`](Self::half_open): the same peer, the
    /// same uuid, both directions open. The host has its client again if it was dropped.
    pub fn reconnect(&mut self, peer: PeerId)
        requires
            peer.0 < old(self)@.peers.len(),
            old(self)@.has_host(),
            old(self)@.peers[peer.0 as int].attachment != Attachment::Left,
            old(self)@.next_entity < u64::MAX,
        ensures
            final(self)@ == model::reconnected(old(self)@, peer.0),
    {
        assert(self@.peers[peer.0 as int] == self.peers@[peer.0 as int]@);
        let uuid = self.peers[peer.0].uuid;
        let is_host = self.peers[peer.0].is_host;
        let was_disconnected = self.peers[peer.0].attachment == Attachment::Disconnected;
        self.attach(peer.0, Attachment::Connected);
        if was_disconnected && !is_host {
            self.spawn_lobby_client(uuid);
        }
    }

    /// The peer presses Leave. Its lobby is gone, the host's client for it is gone, and nothing
    /// flows either way. It is still attached so it can [`rejoin`](Self::rejoin).
    pub fn leave(&mut self, peer: PeerId)
        requires
            peer.0 < old(self)@.peers.len(),
            old(self)@.has_host(),
            !old(self)@.peers[peer.0 as int].is_host,
        ensures
            final(self)@ == model::left(old(self)@, peer.0),
    {
        let ghost before = self@;
        assert(before.peers[peer.0 as int] == self.peers@[peer.0 as int]@);
        let uuid = self.peers[peer.0].uuid;
        self.clear_flights(peer.0, true, true);
        self.peers[peer.0].attachment = Attachment::Left;
        self.peers[peer.0].lobby = None;
        self.peers[peer.0].host_uuid = None;
        proof {
            let now = PeerView {
                lobby: None,
                host_uuid: None,
                attachment: Attachment::Left,
                ..before.peers[peer.0 as int]
            };
            assert(self.peers@[peer.0 as int]@ == now);
            assert(self@.peers =~= before.peers.update(peer.0 as int, now));
            model::lemma_same_hosts(before.peers, self@.peers);
        }
        self.despawn_lobby_client(uuid);
    }

    /// A peer that [`left`](Self::leave) — or was left behind by a [`rehost`](Self::rehost) —
    /// comes back with the same uuid: a fresh lobby on the client, a fresh client on the host.
    pub fn rejoin(&mut self, peer: PeerId)
        requires
            peer.0 < old(self)@.peers.len(),
            old(self)@.has_host(),
            old(self)@.peers[peer.0 as int].attachment == Attachment::Left,
            old(self)@.next_entity < u64::MAX - 1,
        ensures
            final(self)@ == model::rejoined(old(self)@, peer.0),
    {
        let ghost before = self@;
        assert(before.peers[peer.0 as int] == self.peers@[peer.0 as int]@);
        let uuid = self.peers[peer.0].uuid;
        let host = self.host();
        let host_uuid = self.peers[host.0].uuid;
        assert(self@.peers[host.0 as int].uuid == host_uuid);
        let entity = self.next_entity;
        self.next_entity = entity + 1;
        self.peers[peer.0].lobby = Some(PeerLobby { entity, pending: false, rtt: None });
        self.peers[peer.0].host_uuid = Some(host_uuid);
        self.peers[peer.0].attachment = Attachment::Connected;
        proof {
            let now = PeerView {
                lobby: Some(PeerLobby { entity, pending: false, rtt: None }),
                host_uuid: Some(host_uuid),
                attachment: Attachment::Connected,
                ..before.peers[peer.0 as int]
            };
            assert(self.peers@[peer.0 as int]@ == now);
            assert(self@.peers =~= before.peers.update(peer.0 as int, now));
            model::lemma_same_hosts(before.peers, self@.peers);
        }
        self.spawn_lobby_client(uuid);
    }

    /// The host quits and `new_host` hosts instead.
    ///
    /// The old host's lobby goes, and with it every client; every client's lobby goes, as it does
    /// when a host disappears; then `new_host` has a lobby of its own. Everyone else has
    /// [left](Self::leave) and has to [`rejoin`](Self::rejoin).
    pub fn rehost(&mut self, new_host: PeerId)
        requires
            old(self)@.has_host(),
            new_host.0 < old(self)@.peers.len(),
            new_host.0 != old(self)@.host(),
            old(self)@.next_entity < u64::MAX,
        ensures
            final(self)@ == model::rehosted(old(self)@, new_host.0),
    {
        let ghost before = self@;
        let mut i: usize = 0;
        while i < self.peers.len()
            invariant
                i <= self.peers@.len(),
                self.peers@.len() == before.peers.len(),
                self@ == (NetworkView { peers: self@.peers, ..before }),
                forall|j: int|
                    0 <= j < i ==> #[trigger] self@.peers[j] == model::abandoned(before.peers[j]),
                forall|j: int|
                    i <= j < before.peers.len() ==> #[trigger] self@.peers[j] == before.peers[j],
            decreases self.peers.len() - i,
        {
            let ghost now = self@.peers;
            assert(now[i as int] == before.peers[i as int]);
            self.peers[i].lobby = None;
            self.peers[i].is_host = false;
            self.peers[i].attachment = Attachment::Left;
            self.peers[i].host_uuid = None;
            self.peers[i].clients.clear();
            assert(self@.peers[i as int] == model::abandoned(now[i as int]));
            assert(forall|j: int|
                0 <= j < now.len() && j != i ==> #[trigger] self@.peers[j] == now[j]);
            i += 1;
        }
        let ghost gone = self@.peers;
        self.in_flight.clear();
        self.last_reliable_delivery.clear();
        self.next_seq.clear();
        self.known_clients.clear();
        let uuid = self.peers[new_host.0].uuid;
        let entity = self.next_entity;
        self.next_entity = entity + 1;
        self.peers[new_host.0].lobby = Some(PeerLobby { entity, pending: false, rtt: None });
        self.peers[new_host.0].is_host = true;
        self.peers[new_host.0].attachment = Attachment::Connected;
        self.peers[new_host.0].host_uuid = Some(uuid);
        proof {
            let after = model::rehosted(before, new_host.0);
            assert(gone[new_host.0 as int].uuid == uuid);
            assert(self@.in_flight =~= Seq::empty());
            assert forall|j: int| 0 <= j < before.peers.len() implies #[trigger] self@.peers[j]
                == after.peers[j] by {
                assert(gone[j] == model::abandoned(before.peers[j]));
                if j != new_host.0 {
                    assert(self@.peers[j] == gone[j]);
                } else {
                    assert(self@.peers[j].outbox =~= gone[j].outbox);
                    assert(self@.peers[j].inbox =~= gone[j].inbox);
                }
            }
            assert(self@.peers =~= after.peers);
        }
    }
}

/// One more peer at the end changes nothing about who hosts.
proof fn lemma_pushed_host(before: NetworkView, after: NetworkView)
    requires
        before.has_host(),
        before.peers.len() < usize::MAX,
        after.peers.len() == before.peers.len() + 1,
        forall|i: int| 0 <= i < before.peers.len() ==> #[trigger] after.peers[i]
            == before.peers[i],
    ensures
        after.has_host(),
        after.host() == before.host(),
{
    model::lemma_host_found(before.peers);
    assert forall|i: int| 0 <= i < model::host_position(before.peers) implies !(
    #[trigger] after.peers[i]).is_host by {
        assert(!before.peers[i].is_host);
    }
    model::lemma_host_position(after.peers, model::host_position(before.peers));
}

impl LoopbackNetwork {
    // ---- looking around --------------------------------------------------------------------

    /// Every peer, in order.
    pub fn peers(&self) -> (peers: Vec<PeerId>)
        ensures
            peers@ == Seq::new(self@.peers.len(), |i: int| PeerId(i as usize)),
    {
        let mut peers: Vec<PeerId> = Vec::new();
        let mut i: usize = 0;
        while i < self.peers.len()
            invariant
                i <= self.peers@.len(),
                peers@ =~= Seq::new(i as nat, |j: int| PeerId(j as usize)),
            decreases self.peers.len() - i,
        {
            peers.push(PeerId(i));
            i += 1;
        }
        peers
    }

    pub fn uuid(&self, peer: PeerId) -> (uuid: u128)
        requires
            peer.0 < self@.peers.len(),
        ensures
            uuid == self@.peers[peer.0 as int].uuid,
    {
        self.peers[peer.0].uuid
    }

    /// Who this peer has been told it is.
    pub fn local_id(&self, peer: PeerId) -> (id: Option<u128>)
        requires
            peer.0 < self@.peers.len(),
        ensures
            id == self@.peers[peer.0 as int].local_id,
    {
        self.peers[peer.0].local_id
    }

    /// Who this peer has been told hosts its lobby.
    pub fn host_uuid(&self, peer: PeerId) -> (uuid: Option<u128>)
        requires
            peer.0 < self@.peers.len(),
        ensures
            uuid == self@.peers[peer.0 as int].host_uuid,
    {
        self.peers[peer.0].host_uuid
    }

    /// This peer's lobby, pending or not. A peer that has [left](Self::leave) and not rejoined has
    /// none.
    pub fn lobby(&self, peer: PeerId) -> (lobby: PeerLobby)
        requires
            peer.0 < self@.peers.len(),
            self@.peers[peer.0 as int].lobby is Some,
        ensures
            Some(lobby) == self@.peers[peer.0 as int].lobby,
    {
        assert(self@.peers[peer.0 as int] == self.peers@[peer.0 as int]@);
        self.peers[peer.0].lobby.unwrap()
    }

    pub fn try_lobby(&self, peer: PeerId) -> (lobby: Option<PeerLobby>)
        requires
            peer.0 < self@.peers.len(),
        ensures
            lobby == self@.peers[peer.0 as int].lobby,
    {
        self.peers[peer.0].lobby
    }

    /// The clients of the lobby this peer hosts.
    pub fn clients(&self, peer: PeerId) -> (clients: &Vec<LobbyClient>)
        requires
            peer.0 < self@.peers.len(),
        ensures
            clients@ == self@.peers[peer.0 as int].clients,
    {
        assert(self@.peers[peer.0 as int] == self.peers@[peer.0 as int]@);
        &self.peers[peer.0].clients
    }

    /// Attached with both directions open. Pending, half-open, disconnected and departed peers all
    /// answer `false`.
    pub fn is_connected(&self, peer: PeerId) -> (answer: bool)
        requires
            peer.0 < self@.peers.len(),
        ensures
            answer == (self@.peers[peer.0 as int].attachment == Attachment::Connected),
    {
        self.peers[peer.0].attachment == Attachment::Connected
    }

    pub fn is_pending(&self, peer: PeerId) -> (answer: bool)
        requires
            peer.0 < self@.peers.len(),
        ensures
            answer == (self@.peers[peer.0 as int].attachment == Attachment::Pending),
    {
        self.peers[peer.0].attachment == Attachment::Pending
    }

    pub fn is_half_open(&self, peer: PeerId) -> (answer: bool)
        requires
            peer.0 < self@.peers.len(),
        ensures
            answer == (self@.peers[peer.0 as int].attachment == Attachment::HalfOpen),
    {
        self.peers[peer.0].attachment == Attachment::HalfOpen
    }

    pub fn has_left(&self, peer: PeerId) -> (answer: bool)
        requires
            peer.0 < self@.peers.len(),
        ensures
            answer == (self@.peers[peer.0 as int].attachment == Attachment::Left),
    {
        self.peers[peer.0].attachment == Attachment::Left
    }

    /// Frames elapsed since the network was created.
    pub fn frame(&self) -> (frame: u64)
        ensures
            frame == self@.frame,
    {
        self.frame
    }

    pub fn frame_duration(&self) -> (nanos: u64)
        ensures
            nanos == self@.frame_duration,
    {
        self.frame_duration
    }

    // ---- links -----------------------------------------------------------------------------

    /// The default link, used for every direction that has no override.
    pub fn link(&self) -> (link: Link)
        ensures
            link == self@.default_link,
    {
        self.default_link
    }

    /// Replace the default link for every pair and clear every per-direction override.
    pub fn set_link(&mut self, link: Link)
        ensures
            final(self)@ == (NetworkView {
                default_link: link,
                links: Map::empty(),
                ..old(self)@
            }),
    {
        self.default_link = link;
        self.links.clear();
    }

    /// Override one direction of one pair. Every other direction keeps what it had.
    pub fn set_link_between(&mut self, from: PeerId, to: PeerId, link: Link)
        ensures
            final(self)@ == (NetworkView {
                links: old(self)@.links.insert(model::pair_key(from.0, to.0), link),
                ..old(self)@
            }),
    {
        self.links.insert(key_of(from.0, to.0), link);
    }

    /// Override both directions of one pair.
    pub fn set_link_pair(&mut self, a: PeerId, b: PeerId, a_to_b: Link, b_to_a: Link)
        ensures
            final(self)@ == (NetworkView {
                links: old(self)@.links.insert(model::pair_key(a.0, b.0), a_to_b).insert(
                    model::pair_key(b.0, a.0),
                    b_to_a,
                ),
                ..old(self)@
            }),
    {
        self.set_link_between(a, b, a_to_b);
        self.set_link_between(b, a, b_to_a);
    }

    // ---- observing and interfering ---------------------------------------------------------

    /// Start or stop recording every packet handed to the network. Off by default; the record
    /// grows without bound while on.
    pub fn trace_packets(&mut self, on: bool)
        ensures
            final(self)@ == model::tracing(old(self)@, on),
    {
        if !on {
            self.trace = None;
        } else if self.trace.is_none() {
            let empty: Vec<SentPacket> = Vec::new();
            assert(packet::sent_views(empty@) =~= Seq::empty());
            self.trace = Some(empty);
        }
    }

    /// Everything recorded since tracing was switched on, in the order it was sent; nothing while
    /// it is off.
    pub fn trace(&self) -> (trace: &[SentPacket])
        ensures
            packet::sent_views(trace@) == match self@.trace {
                Some(trace) => trace,
                None => Seq::empty(),
            },
    {
        match &self.trace {
            Some(trace) => trace.as_slice(),
            None => {
                let nothing: &[SentPacket] = &[];
                assert(packet::sent_views(nothing@) =~= Seq::empty());
                nothing
            },
        }
    }

    /// Take the record, leaving tracing on with an empty one.
    pub fn take_trace(&mut self) -> (trace: Vec<SentPacket>)
        ensures
            packet::sent_views(trace@) == match old(self)@.trace {
                Some(trace) => trace,
                None => Seq::empty(),
            },
            final(self)@ == model::trace_taken(old(self)@),
    {
        let empty: Vec<SentPacket> = Vec::new();
        assert(packet::sent_views(empty@) =~= Seq::empty());
        match self.trace.take() {
            Some(trace) => {
                self.trace = Some(empty);
                trace
            },
            None => empty,
        }
    }

    /// Bytes handed to the network from `from` to `to` since creation, delivered or not. Counted
    /// whether or not tracing is on.
    pub fn bytes_sent(&self, from: PeerId, to: PeerId) -> (bytes: u64)
        ensures
            bytes == self@.sent_of(model::pair_key(from.0, to.0)).bytes,
    {
        match self.sent.get(&key_of(from.0, to.0)) {
            Some(sent) => sent.bytes,
            None => 0,
        }
    }

    /// Packets handed to the network from `from` to `to` since creation.
    pub fn packets_sent(&self, from: PeerId, to: PeerId) -> (packets: u64)
        ensures
            packets == self@.sent_of(model::pair_key(from.0, to.0)).packets,
    {
        match self.sent.get(&key_of(from.0, to.0)) {
            Some(sent) => sent.packets,
            None => 0,
        }
    }

    /// Lose exactly the next `count` **unreliable** packets from `from` to `to`, whatever the link
    /// would have done. Reliable packets pass untouched: a reliable transport retransmits rather
    /// than loses, and [`Link::loss`] already models what that costs.
    pub fn drop_next(&mut self, from: PeerId, to: PeerId, count: usize)
        requires
            old(self)@.drops_of(model::pair_key(from.0, to.0)) + count <= usize::MAX,
        ensures
            final(self)@ == model::dropping(old(self)@, from.0, to.0, count),
    {
        let key = key_of(from.0, to.0);
        let drops: usize = match self.pending_drops.get(&key) {
            Some(drops) => *drops,
            None => 0,
        };
        self.pending_drops.insert(key, drops + count);
    }

    /// Rewrite the next packet from `from` to `to` before its link sees it. Queues: two calls
    /// corrupt the next two.
    pub fn corrupt_next(&mut self, from: PeerId, to: PeerId, rewrite: Corruption)
        ensures
            final(self)@ == model::corrupting(old(self)@, from.0, to.0, rewrite@),
    {
        self.pending_corruptions.push(PendingCorruption { key: key_of(from.0, to.0), rewrite });
        assert(self@.pending_corruptions =~= model::corrupting(
            old(self)@,
            from.0,
            to.0,
            rewrite@,
        ).pending_corruptions);
    }

    /// Put `bytes` on their way to `to` for the next frame, as if `sender` had sent them.
    ///
    /// For crafting a control message the game would never send, or feeding a decoder garbage.
    /// Bypasses the links, the trace and the counters.
    pub fn deliver_raw(&mut self, to: PeerId, sender: u128, bytes: Vec<u8>)
        requires
            to.0 < old(self)@.peers.len(),
            old(self)@.frame < u64::MAX,
            forall|key: u128| #[trigger] old(self)@.seq_of(key) < u64::MAX,
        ensures
            final(self)@ == model::slipped_in(old(self)@, to.0, sender, bytes@),
    {
        let from = match self.peer_by_uuid(sender) {
            Some(peer) => peer.0,
            None => to.0,
        };
        assert(self@.seq_of(model::pair_key(from, to.0)) < u64::MAX);
        let seq = self.take_seq(key_of(from, to.0));
        self.launch(
            Packet {
                seq,
                to: to.0,
                from,
                from_uuid: sender,
                bytes,
                reliable: true,
                deliver_at_frame: self.frame + 1,
            },
        );
    }

    // ---- the peers' own ends ---------------------------------------------------------------

    /// `peer` has encoded a packet and addressed it to `entity`: a client on a host, its lobby on
    /// a client.
    pub fn send(&mut self, peer: PeerId, entity: u64, bytes: Vec<u8>, mode: SendMode)
        requires
            peer.0 < old(self)@.peers.len(),
        ensures
            final(self)@ == model::sending(old(self)@, peer.0, entity, bytes@, mode),
    {
        let ghost before = self.peers@[peer.0 as int];
        assert(self@.peers[peer.0 as int] == before@);
        let packet = OutboxPacket { entity, bytes, mode };
        self.peers[peer.0].outbox.push(packet);
        assert(self.peers@[peer.0 as int]@.outbox =~= before@.outbox.push(packet@));
        assert(self@.peers =~= old(self)@.peers.update(
            peer.0 as int,
            PeerView { outbox: before@.outbox.push(packet@), ..before@ },
        ));
    }

    /// `peer` reads everything that was delivered to it.
    pub fn take_inbox(&mut self, peer: PeerId) -> (packets: Vec<InboxPacket>)
        requires
            peer.0 < old(self)@.peers.len(),
        ensures
            model::inbox_views(packets@) == old(self)@.peers[peer.0 as int].inbox,
            final(self)@ == model::inbox_taken(old(self)@, peer.0),
    {
        assert(self@.peers[peer.0 as int] == self.peers@[peer.0 as int]@);
        let mut packets: Vec<InboxPacket> = Vec::new();
        std::mem::swap(&mut packets, &mut self.peers[peer.0].inbox);
        assert(self.peers@[peer.0 as int]@.inbox =~= Seq::empty());
        assert(self@.peers =~= old(self)@.peers.update(
            peer.0 as int,
            PeerView { inbox: Seq::empty(), ..old(self)@.peers[peer.0 as int] },
        ));
        packets
    }
}

} // verus!
