//! What the network promises of every packet and every peer.

use vstd::prelude::*;

use super::corruption;
use super::corruption::CorruptionView;
use super::link;
use super::link::Link;
use super::model;
use super::model::{Attachment, NetworkView, PeerLobby, PeerView};
use super::packet::{PacketFate, PacketView, SentPacketView};
use super::rng::SeededRng;
use crate::transport::SendMode;

verus! {

impl NetworkView {
    /// Whether what `from` sends reaches `to` at all.
    pub open spec fn reaches(self, from: usize, to: usize) -> bool {
        self.peers[from as int].attachment.sends() && self.peers[to as int].attachment.receives()
    }

    /// Whether nothing that is still in flight has come due.
    pub open spec fn up_to_date(self) -> bool {
        forall|i: int|
            0 <= i < self.in_flight.len() ==> (#[trigger] self.in_flight[i]).deliver_at_frame
                > self.frame
    }

    /// Whether the reliable packets of each link are in flight in the order they were sent in, in
    /// sequence and in delivery frame, and none is numbered or delivered after the last one sent.
    pub open spec fn keeps_order(self) -> bool {
        &&& forall|i: int, j: int|
            #![trigger self.in_flight[i], self.in_flight[j]]
            0 <= i < j < self.in_flight.len() ==> in_send_order(
                self.in_flight[i],
                self.in_flight[j],
            )
        &&& forall|i: int|
            0 <= i < self.in_flight.len() ==> {
                let packet = #[trigger] self.in_flight[i];
                let key = model::pair_key(packet.from, packet.to);
                &&& packet.seq <= self.seq_of(key)
                &&& packet.reliable ==> packet.deliver_at_frame <= self.last_of(key)
            }
    }
}

/// Whether two packets are on the same link.
pub open spec fn same_link(one: PacketView, other: PacketView) -> bool {
    one.from == other.from && one.to == other.to
}

/// Whether `earlier` is numbered before `later` and delivered no later, if both are reliable
/// packets of the same link.
pub open spec fn in_send_order(earlier: PacketView, later: PacketView) -> bool {
    earlier.reliable && later.reliable && same_link(earlier, later) ==> {
        &&& earlier.seq < later.seq
        &&& earlier.deliver_at_frame <= later.deliver_at_frame
    }
}

/// A reliable packet between peers that reach each other is never dropped, duplicated or refused:
/// exactly one more packet is in flight, it carries the same bytes, and it arrives on a later
/// frame and no earlier than any reliable packet sent on the link before it.
pub proof fn law_reliable_is_delivered_once(
    net: NetworkView,
    from: usize,
    to: usize,
    bytes: Seq<u8>,
    mode: SendMode,
)
    requires
        net.reaches(from, to),
        mode.reliable(),
        net.has_room(1, net.rewritten(from, to, bytes).len() as int),
    ensures
        ({
            let after = model::scheduled(net, from, to, bytes, mode);
            let packet = after.in_flight.last();
            &&& after.in_flight == net.in_flight.push(packet)
            &&& packet.from == from
            &&& packet.to == to
            &&& packet.from_uuid == net.peers[from as int].uuid
            &&& packet.bytes == net.rewritten(from, to, bytes)
            &&& packet.reliable
            &&& packet.deliver_at_frame > net.frame
            &&& packet.deliver_at_frame >= net.last_of(model::pair_key(from, to))
            &&& net.trace matches Some(trace) ==> after.trace matches Some(longer)
                && longer == trace.push(longer.last()) && longer.last().fate
                == (PacketFate::Delivered { at_frame: packet.deliver_at_frame })
        }),
{
    lemma_delay_fits(net, from, to, mode);
    let after = model::scheduled(net, from, to, bytes, mode);
    assert(after.in_flight =~= net.in_flight.push(after.in_flight.last()));
    if net.trace is Some {
        assert(after.trace->0 =~= (net.trace->0).push((after.trace->0).last()));
    }
}

/// How long a packet takes is never negative and fits the clock.
proof fn lemma_delay_fits(net: NetworkView, from: usize, to: usize, mode: SendMode)
    requires
        net.clock_has_room(1),
    ensures
        ({
            let link = net.link_between(from, to);
            let forced = !mode.reliable() && net.drops_of(model::pair_key(from, to)) > 0;
            let way = model::transit(link, net.frame_duration, forced, net.link_rng);
            &&& 0 <= way.delay
            &&& 0 <= net.frames(2 * link.delay)
            &&& net.frame + way.delay + net.frames(2 * link.delay) + 3 <= u64::MAX
        }),
{
    let link = net.link_between(from, to);
    model::lemma_frames_not_negative(link.delay as int, net.frame_duration as int);
    model::lemma_frames_not_negative(link.jitter as int, net.frame_duration as int);
    model::lemma_frames_not_negative(2 * link.delay, net.frame_duration as int);
    assert(net.frame + net.longest(link) + 1 + 2 <= u64::MAX);
    let jitter = net.frames(link.jitter as int);
    if link.jitter > 0 {
        let spread = (jitter + 1) as u64;
        assert(spread == jitter + 1);
        assert(net.link_rng.next_below(spread) < spread);
    }
}

/// Only an unreliable packet is dropped, found too large, or duplicated.
pub proof fn law_only_unreliable_packets_suffer(
    net: NetworkView,
    from: usize,
    to: usize,
    bytes: Seq<u8>,
    mode: SendMode,
)
    requires
        net.trace is Some,
        ({
            let after = model::scheduled(net, from, to, bytes, mode);
            let fate = (after.trace->0).last().fate;
            fate is Dropped || fate is Oversize || fate is Duplicated
        }),
    ensures
        !mode.reliable(),
{
}

/// A packet that its link is handed keeps the order reliable ones were sent in.
proof fn lemma_forwarded_keeps_order(
    net: NetworkView,
    from: usize,
    to: usize,
    bytes: Seq<u8>,
    mode: SendMode,
)
    requires
        net.keeps_order(),
        net.has_room(1, bytes.len() as int),
    ensures
        model::forwarded(net, from, to, bytes, mode).keeps_order(),
{
    let after = model::forwarded(net, from, to, bytes, mode);
    let key = model::pair_key(from, to);
    let seq = (net.seq_of(key) + 1) as u64;
    lemma_delay_fits(net, from, to, mode);
    assert(net.seq_of(key) + 2 <= u64::MAX);
    model::lemma_overtaken_is_there(net.in_flight, net.in_flight.len(), from, to, seq);
    assert forall|k: u128| #[trigger] after.seq_of(k) >= net.seq_of(k) && after.last_of(k)
        >= net.last_of(k) by {}
    assert forall|i: int| 0 <= i < after.in_flight.len() implies {
        let packet = #[trigger] after.in_flight[i];
        let k = model::pair_key(packet.from, packet.to);
        &&& packet.seq <= after.seq_of(k)
        &&& packet.reliable ==> packet.deliver_at_frame <= after.last_of(k)
    } by {
        let packet = after.in_flight[i];
        let k = model::pair_key(packet.from, packet.to);
        assert(after.seq_of(k) >= net.seq_of(k));
        if i < net.in_flight.len() {
            let before = net.in_flight[i];
            assert(before.from == packet.from && before.to == packet.to && before.reliable
                == packet.reliable);
        }
    }
    assert forall|i: int, j: int|
        #![trigger after.in_flight[i], after.in_flight[j]]
        0 <= i < j < after.in_flight.len() implies in_send_order(
        after.in_flight[i],
        after.in_flight[j],
    ) by {
        if j < net.in_flight.len() {
            assert(in_send_order(net.in_flight[i], net.in_flight[j]));
        } else if i < net.in_flight.len() {
            let before = net.in_flight[i];
            assert(after.in_flight[i].reliable ==> after.in_flight[i] == before);
            if same_link(before, after.in_flight[j]) {
                assert(model::pair_key(before.from, before.to) == key);
            }
        }
    }
}

/// Handing over a packet keeps the reliable packets of every link in the order they were sent in.
pub proof fn law_reliable_order_is_kept(
    net: NetworkView,
    from: usize,
    to: usize,
    bytes: Seq<u8>,
    mode: SendMode,
)
    requires
        net.keeps_order(),
        net.has_room(1, net.rewritten(from, to, bytes).len() as int),
    ensures
        model::scheduled(net, from, to, bytes, mode).keeps_order(),
{
    let ready = net.rewrite_taken(from, to);
    let sent = net.rewritten(from, to, bytes);
    model::lemma_same_counters_same_room(net, ready, 1, sent.len() as int);
    assert(ready.keeps_order()) by {
        assert forall|i: int| 0 <= i < ready.in_flight.len() implies {
            let packet = #[trigger] ready.in_flight[i];
            let key = model::pair_key(packet.from, packet.to);
            &&& packet.seq <= ready.seq_of(key)
            &&& packet.reliable ==> packet.deliver_at_frame <= ready.last_of(key)
        } by {
            assert(net.in_flight[i] == ready.in_flight[i]);
        }
    }
    lemma_forwarded_keeps_order(ready, from, to, sent, mode);
}

/// Nothing is delivered on the frame it was sent on.
pub proof fn law_nothing_arrives_on_its_own_frame(
    net: NetworkView,
    from: usize,
    to: usize,
    bytes: Seq<u8>,
    mode: SendMode,
)
    requires
        net.up_to_date(),
        net.has_room(1, net.rewritten(from, to, bytes).len() as int),
    ensures
        model::scheduled(net, from, to, bytes, mode).up_to_date(),
{
    let after = model::scheduled(net, from, to, bytes, mode);
    let key = model::pair_key(from, to);
    let seq = (net.seq_of(key) + 1) as u64;
    lemma_delay_fits(net, from, to, mode);
    model::lemma_overtaken_is_there(net.in_flight, net.in_flight.len(), from, to, seq);
    let found = model::overtaken(net.in_flight, net.in_flight.len(), from, to, seq);
    if found is Some {
        assert(net.in_flight[found->0].deliver_at_frame > net.frame);
        assert(net.in_flight[found->0].deliver_at_frame + 1 <= u64::MAX);
    }
    assert forall|i: int| 0 <= i < after.in_flight.len() implies (
    #[trigger] after.in_flight[i]).deliver_at_frame > after.frame by {
        if i < net.in_flight.len() {
            assert(net.in_flight[i].deliver_at_frame > net.frame);
        }
    }
}

/// Once what is due is delivered, nothing in flight is.
pub proof fn law_delivery_catches_up(net: NetworkView)
    ensures
        model::delivered(net).up_to_date(),
{
    lemma_filter_passes(net.in_flight, model::not_due(net.frame));
}

proof fn lemma_filter_passes(packets: Seq<PacketView>, keep: spec_fn(PacketView) -> bool)
    ensures
        forall|i: int| 0 <= i < packets.filter(keep).len() ==> keep(
            #[trigger] packets.filter(keep)[i],
        ),
    decreases packets.len(),
{
    reveal(Seq::filter);
    if packets.len() > 0 {
        lemma_filter_passes(packets.drop_last(), keep);
        let shorter = packets.drop_last().filter(keep);
        assert forall|i: int| 0 <= i < packets.filter(keep).len() implies keep(
            #[trigger] packets.filter(keep)[i],
        ) by {
            if i < shorter.len() {
                assert(packets.filter(keep)[i] == shorter[i]);
            }
        }
    }
}

/// Whether nothing in the list precedes something that stands before it.
pub open spec fn is_sorted(packets: Seq<PacketView>) -> bool {
    forall|i: int, j: int|
        #![trigger packets[i], packets[j]]
        0 <= i < j < packets.len() ==> !packets[j].precedes(packets[i])
}

/// What is delivered on a frame is delivered in order, and is what was due.
pub proof fn law_due_packets_are_sorted(packets: Seq<PacketView>)
    ensures
        is_sorted(model::sorted(packets)),
        model::sorted(packets).to_multiset() == packets.to_multiset(),
    decreases packets.len(),
{
    if packets.len() > 0 {
        let shorter = packets.drop_last();
        law_due_packets_are_sorted(shorter);
        lemma_inserted_sorted(model::sorted(shorter), packets.last());
        vstd::seq_lib::to_multiset_build(shorter, packets.last());
        assert(shorter.push(packets.last()) =~= packets);
    }
}

proof fn lemma_inserted_sorted(sorted: Seq<PacketView>, packet: PacketView)
    requires
        is_sorted(sorted),
    ensures
        is_sorted(model::inserted(sorted, packet)),
        model::inserted(sorted, packet).to_multiset() == sorted.to_multiset().insert(packet),
        forall|i: int|
            0 <= i < model::inserted(sorted, packet).len() ==> (#[trigger] model::inserted(
                sorted,
                packet,
            )[i] == packet || exists|j: int| 0 <= j < sorted.len() && sorted[j]
                == model::inserted(sorted, packet)[i]),
    decreases sorted.len(),
{
    let after = model::inserted(sorted, packet);
    if sorted.len() == 0 || !packet.precedes(sorted.last()) {
        vstd::seq_lib::to_multiset_build(sorted, packet);
        assert forall|i: int, j: int|
            #![trigger after[i], after[j]]
            0 <= i < j < after.len() implies !after[j].precedes(after[i]) by {
            if j == sorted.len() && i < sorted.len() - 1 {
                assert(!sorted[sorted.len() - 1].precedes(sorted[i]));
            }
        }
        assert forall|i: int| 0 <= i < after.len() implies (#[trigger] after[i] == packet
            || exists|j: int| 0 <= j < sorted.len() && sorted[j] == after[i]) by {
            if i < sorted.len() {
                assert(sorted[i] == after[i]);
            }
        }
    } else {
        let shorter = sorted.drop_last();
        let inner = model::inserted(shorter, packet);
        assert(is_sorted(shorter));
        lemma_inserted_sorted(shorter, packet);
        vstd::seq_lib::to_multiset_build(shorter, sorted.last());
        vstd::seq_lib::to_multiset_build(inner, sorted.last());
        assert(shorter.push(sorted.last()) =~= sorted);
        assert(inner.to_multiset().insert(sorted.last())
            =~= sorted.to_multiset().insert(packet));
        assert forall|i: int, j: int|
            #![trigger after[i], after[j]]
            0 <= i < j < after.len() implies !after[j].precedes(after[i]) by {
            if j < inner.len() {
                assert(!inner[j].precedes(inner[i]));
            } else {
                assert(inner[i] == after[i]);
                if after[i] != packet {
                    let k = choose|k: int| 0 <= k < shorter.len() && shorter[k] == inner[i];
                    assert(!sorted[sorted.len() - 1].precedes(sorted[k]));
                }
            }
        }
        assert forall|i: int| 0 <= i < after.len() implies (#[trigger] after[i] == packet
            || exists|j: int| 0 <= j < sorted.len() && sorted[j] == after[i]) by {
            if i < inner.len() {
                assert(inner[i] == after[i]);
                if after[i] != packet {
                    let k = choose|k: int| 0 <= k < shorter.len() && shorter[k] == inner[i];
                    assert(sorted[k] == after[i]);
                }
            } else {
                assert(sorted[sorted.len() - 1] == after[i]);
            }
        }
    }
}

/// Of two reliable packets on one link, the one sent first is delivered first.
pub proof fn law_reliable_packets_arrive_in_order(net: NetworkView, i: int, j: int)
    requires
        net.keeps_order(),
        0 <= i < j < net.in_flight.len(),
        net.in_flight[i].reliable,
        net.in_flight[j].reliable,
        same_link(net.in_flight[i], net.in_flight[j]),
    ensures
        net.in_flight[i].precedes(net.in_flight[j]),
        net.in_flight[i].deliver_at_frame <= net.in_flight[j].deliver_at_frame,
{
    assert(in_send_order(net.in_flight[i], net.in_flight[j]));
}

/// An unreliable packet that is to be dropped is: nothing more is in flight, one fewer is to be
/// dropped, and its fate says so.
pub proof fn law_drop_next_drops(
    net: NetworkView,
    from: usize,
    to: usize,
    bytes: Seq<u8>,
    mode: SendMode,
)
    requires
        net.reaches(from, to),
        !mode.reliable(),
        net.link_between(from, to).max_message_size matches Some(limit) ==> net.rewritten(
            from,
            to,
            bytes,
        ).len() <= limit,
        net.drops_of(model::pair_key(from, to)) > 0,
    ensures
        ({
            let after = model::scheduled(net, from, to, bytes, mode);
            let key = model::pair_key(from, to);
            &&& after.in_flight == net.in_flight
            &&& after.drops_of(key) == net.drops_of(key) - 1
            &&& net.trace is Some ==> after.trace is Some && (after.trace->0).last().fate
                == PacketFate::Dropped
        }),
{
}

/// No other packet is counted against what is to be dropped.
pub proof fn law_drop_next_spares_the_rest(
    net: NetworkView,
    from: usize,
    to: usize,
    bytes: Seq<u8>,
    mode: SendMode,
    key: u128,
)
    requires
        mode.reliable() || key != model::pair_key(from, to),
    ensures
        model::scheduled(net, from, to, bytes, mode).drops_of(key) == net.drops_of(key),
{
}

/// A packet whose bytes are to be rewritten is handed to its link rewritten, and the rewrite is used
/// up: the one asked for behind it is the next to be used.
pub proof fn law_corrupt_next_rewrites_one_packet(
    net: NetworkView,
    from: usize,
    to: usize,
    rewrite: CorruptionView,
    bytes: Seq<u8>,
    mode: SendMode,
    next_bytes: Seq<u8>,
)
    requires
        net.corruption_for(from, to) == net.pending_corruptions.len(),
    ensures
        ({
            let asked = model::corrupting(net, from, to, rewrite);
            let after = model::scheduled(asked, from, to, bytes, mode);
            &&& asked.rewritten(from, to, bytes) == rewrite.applied(bytes)
            &&& after.rewritten(from, to, next_bytes) == next_bytes
            &&& after == NetworkView {
                pending_corruptions: net.pending_corruptions,
                ..model::forwarded(net, from, to, rewrite.applied(bytes), mode)
            }
        }),
{
    let key = model::pair_key(from, to);
    let asked = model::corrupting(net, from, to, rewrite);
    let last = net.pending_corruptions.len() as int;
    corruption::lemma_first_for(net.pending_corruptions, key);
    assert forall|i: int| 0 <= i < last implies (
    #[trigger] asked.pending_corruptions[i]).key != key by {
        assert(net.pending_corruptions[i].key != key);
    }
    corruption::lemma_first_for_is(asked.pending_corruptions, key, last);
    assert(asked.pending_corruptions.remove(last) =~= net.pending_corruptions);
    assert(asked.rewrite_taken(from, to) == net);
}

/// Rewrites are used in the order they were asked for in: one asked for now waits for the packets
/// that those before it are for.
pub proof fn law_corruptions_queue_up(
    net: NetworkView,
    from: usize,
    to: usize,
    rewrite: CorruptionView,
    bytes: Seq<u8>,
)
    requires
        net.corruption_for(from, to) < net.pending_corruptions.len(),
    ensures
        ({
            let asked = model::corrupting(net, from, to, rewrite);
            &&& asked.rewritten(from, to, bytes) == net.rewritten(from, to, bytes)
            &&& asked.rewrite_taken(from, to) == model::corrupting(
                net.rewrite_taken(from, to),
                from,
                to,
                rewrite,
            )
        }),
{
    let key = model::pair_key(from, to);
    let asked = model::corrupting(net, from, to, rewrite);
    let first = net.corruption_for(from, to);
    corruption::lemma_first_for(net.pending_corruptions, key);
    assert forall|i: int| 0 <= i < first implies (
    #[trigger] asked.pending_corruptions[i]).key != key by {
        assert(net.pending_corruptions[i].key != key);
    }
    corruption::lemma_first_for_is(asked.pending_corruptions, key, first);
    assert(asked.pending_corruptions.remove(first) =~= net.pending_corruptions.remove(first).push(
        asked.pending_corruptions.last(),
    ));
}

/// A rewrite is for packets of its own direction: those of every other are sent as they are, or as
/// they would have been.
pub proof fn law_corrupt_next_spares_the_rest(
    net: NetworkView,
    from: usize,
    to: usize,
    rewrite: CorruptionView,
    other_from: usize,
    other_to: usize,
    bytes: Seq<u8>,
)
    requires
        from != other_from || to != other_to,
    ensures
        model::corrupting(net, from, to, rewrite).rewritten(other_from, other_to, bytes)
            == net.rewritten(other_from, other_to, bytes),
{
    let other = model::pair_key(other_from, other_to);
    let asked = model::corrupting(net, from, to, rewrite);
    let first = net.corruption_for(other_from, other_to);
    model::lemma_pair_key_is_injective(from, to, other_from, other_to);
    corruption::lemma_first_for(net.pending_corruptions, other);
    assert forall|i: int| 0 <= i < first implies (
    #[trigger] asked.pending_corruptions[i]).key != other by {
        assert(net.pending_corruptions[i].key != other);
    }
    if first < net.pending_corruptions.len() {
        corruption::lemma_first_for_is(asked.pending_corruptions, other, first);
    } else {
        corruption::lemma_first_for_is(asked.pending_corruptions, other, first + 1);
    }
}

/// A peer that is half open is heard by nobody, and still receives.
pub proof fn law_half_open_is_deaf_to_nobody(
    net: NetworkView,
    peer: usize,
    other: usize,
    bytes: Seq<u8>,
    mode: SendMode,
)
    requires
        peer < net.peers.len(),
        other < net.peers.len(),
        peer != other,
        net.peers[other as int].attachment == Attachment::Connected,
    ensures
        ({
            let open = model::half_opened(net, peer);
            &&& model::scheduled(open, peer, other, bytes, mode).in_flight == open.in_flight
            &&& open.reaches(other, peer)
        }),
{
}

/// Drawing content does not perturb what the links do.
pub proof fn law_content_does_not_perturb_the_links(
    net: NetworkView,
    content_rng: SeededRng,
    from: usize,
    to: usize,
    bytes: Seq<u8>,
    mode: SendMode,
)
    ensures
        model::scheduled(NetworkView { content_rng, ..net }, from, to, bytes, mode) == (
        NetworkView { content_rng, ..model::scheduled(net, from, to, bytes, mode) }),
{
    let other = NetworkView { content_rng, ..net };
    let key = model::pair_key(from, to);
    let link = net.link_between(from, to);
    assert(other.link_between(from, to) == link);
    assert(other.seq_of(key) == net.seq_of(key));
    assert(other.last_of(key) == net.last_of(key));
    assert(other.drops_of(key) == net.drops_of(key));
    assert(other.sent_of(key) == net.sent_of(key));
}

/// Overriding one direction of one pair leaves every other direction as it was.
pub proof fn law_links_are_per_direction(
    net: NetworkView,
    from: usize,
    to: usize,
    link: Link,
    other_from: usize,
    other_to: usize,
)
    requires
        from != other_from || to != other_to,
    ensures
        ({
            let after = NetworkView {
                links: net.links.insert(model::pair_key(from, to), link),
                ..net
            };
            &&& after.link_between(from, to) == link
            &&& after.link_between(other_from, other_to) == net.link_between(
                other_from,
                other_to,
            )
        }),
{
    model::lemma_pair_key_is_injective(from, to, other_from, other_to);
}

/// Over a perfect link a reliable packet arrives on the next frame, unless one sent before it is
/// still on its way for longer.
pub proof fn law_perfect_link_delivers_next_frame(
    net: NetworkView,
    from: usize,
    to: usize,
    bytes: Seq<u8>,
    mode: SendMode,
)
    requires
        net.reaches(from, to),
        mode.reliable(),
        net.link_between(from, to) == link::perfect_link(),
        net.last_of(model::pair_key(from, to)) <= net.frame + 1,
        net.frame < u64::MAX,
    ensures
        model::scheduled(net, from, to, bytes, mode).in_flight.last().deliver_at_frame
            == net.frame + 1,
{
    assert(link::frames_in(0, net.frame_duration as int) == 0) by {
        if net.frame_duration > 0 {
            vstd::arithmetic::div_mod::lemma_basic_div(
                net.frame_duration as int,
                2 * net.frame_duration,
            );
        }
    }
}

/// How many of the first `n` records are of packets from `from` to `to`.
pub open spec fn traced_packets(trace: Seq<SentPacketView>, from: usize, to: usize) -> int
    decreases trace.len(),
{
    if trace.len() == 0 {
        0
    } else {
        traced_packets(trace.drop_last(), from, to) + if trace.last().from.0 == from
            && trace.last().to.0 == to {
            1int
        } else {
            0int
        }
    }
}

/// How many bytes the records hold of packets from `from` to `to`.
pub open spec fn traced_bytes(trace: Seq<SentPacketView>, from: usize, to: usize) -> int
    decreases trace.len(),
{
    if trace.len() == 0 {
        0
    } else {
        traced_bytes(trace.drop_last(), from, to) + if trace.last().from.0 == from
            && trace.last().to.0 == to {
            trace.last().bytes.len() as int
        } else {
            0int
        }
    }
}

/// Whether the counters of every direction say what the trace shows.
pub open spec fn counters_agree(net: NetworkView) -> bool {
    net.trace matches Some(trace) ==> forall|from: usize, to: usize|
        {
            let sent = #[trigger] net.sent_of(model::pair_key(from, to));
            &&& sent.packets == traced_packets(trace, from, to)
            &&& sent.bytes == traced_bytes(trace, from, to)
        }
}

/// Every packet handed to the network is counted and traced, whatever becomes of it.
pub proof fn law_counters_agree_with_the_trace(
    net: NetworkView,
    from: usize,
    to: usize,
    bytes: Seq<u8>,
    mode: SendMode,
)
    requires
        counters_agree(net),
        net.has_room(1, net.rewritten(from, to, bytes).len() as int),
    ensures
        counters_agree(model::scheduled(net, from, to, bytes, mode)),
{
    let after = model::scheduled(net, from, to, bytes, mode);
    let key = model::pair_key(from, to);
    if net.trace is Some {
        let trace = net.trace->0;
        let longer = after.trace->0;
        assert(longer.drop_last() =~= trace);
        assert(net.sent_of(key).packets + 1 <= u64::MAX);
        assert(net.sent_of(key).bytes + net.rewritten(from, to, bytes).len() <= u64::MAX);
        assert forall|f: usize, t: usize|
            {
                let sent = #[trigger] after.sent_of(model::pair_key(f, t));
                &&& sent.packets == traced_packets(longer, f, t)
                &&& sent.bytes == traced_bytes(longer, f, t)
            } by {
            model::lemma_pair_key_is_injective(from, to, f, t);
            assert(net.sent_of(model::pair_key(f, t)).packets == traced_packets(trace, f, t));
        }
    }
}

/// A peer that leaves and comes back is the same peer, connected, in a lobby that is not pending,
/// told who hosts, and a client of the host.
pub proof fn law_rejoining_undoes_leaving(net: NetworkView, peer: usize)
    requires
        net.has_host(),
        peer < net.peers.len(),
        !net.peers[peer as int].is_host,
    ensures
        ({
            let gone = model::left(net, peer);
            let back = model::rejoined(gone, peer);
            let before = net.peers[peer as int];
            let now = back.peers[peer as int];
            &&& gone.peers[peer as int].attachment == Attachment::Left
            &&& gone.peers[peer as int].lobby is None
            &&& now.uuid == before.uuid
            &&& now.attachment == Attachment::Connected
            &&& now.lobby is Some && !(now.lobby->0).pending
            &&& now.host_uuid == Some(net.peers[net.host() as int].uuid)
            &&& back.peers[net.host() as int].clients.last().uuid == before.uuid
        }),
{
    model::lemma_host_found(net.peers);
    let before = net.peers[peer as int];
    let leaving = net.peers.update(
        peer as int,
        PeerView { lobby: None, host_uuid: None, attachment: Attachment::Left, ..before },
    );
    model::lemma_same_hosts(net.peers, leaving);
    let gone = model::left(net, peer);
    model::lemma_same_hosts(net.peers, gone.peers);
    let returning = gone.peers.update(
        peer as int,
        PeerView {
            lobby: Some(PeerLobby { entity: gone.next_entity, pending: false, rtt: None }),
            host_uuid: Some(gone.peers[gone.host() as int].uuid),
            attachment: Attachment::Connected,
            ..gone.peers[peer as int]
        },
    );
    model::lemma_same_hosts(net.peers, returning);
}

/// When the host changes, exactly the new host hosts; everyone else has left and is in no lobby;
/// and nothing is in flight.
pub proof fn law_rehosting_leaves_one_host(net: NetworkView, new_host: usize)
    requires
        new_host < net.peers.len() <= usize::MAX,
    ensures
        ({
            let after = model::rehosted(net, new_host);
            &&& after.has_host()
            &&& after.host() == new_host
            &&& after.in_flight.len() == 0
            &&& forall|i: int|
                0 <= i < net.peers.len() && i != new_host ==> {
                    let peer = #[trigger] after.peers[i];
                    &&& !peer.is_host
                    &&& peer.attachment == Attachment::Left
                    &&& peer.lobby is None
                    &&& peer.clients.len() == 0
                    &&& peer.uuid == net.peers[i].uuid
                }
        }),
{
    let after = model::rehosted(net, new_host);
    assert forall|i: int| 0 <= i < new_host implies !(#[trigger] after.peers[i]).is_host by {}
    model::lemma_host_position(after.peers, new_host as int);
}

} // verus!
