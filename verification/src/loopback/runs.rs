//! What the network promises of whole runs: of every frame, and of everything sent on the way.

use vstd::prelude::*;

use super::corruption;
use super::laws;
use super::model;
use super::model::{NetworkView, ResolvedView};
use super::network;
use super::packet::PacketView;
use super::rng::SeededRng;
use crate::lists;
use crate::transport::SendMode;

verus! {

impl NetworkView {
    /// The network with another generator for content.
    pub open spec fn with_content(self, content_rng: SeededRng) -> NetworkView {
        NetworkView { content_rng, ..self }
    }

    /// Whether two networks are the same but for what content is drawn next.
    pub open spec fn agrees_with(self, other: NetworkView) -> bool {
        other == self.with_content(other.content_rng)
    }
}

proof fn lemma_samples(net: NetworkView, content_rng: SeededRng, n: nat)
    ensures
        model::samples(net.with_content(content_rng), n) == model::samples(net, n),
        model::sampled_rng(net.with_content(content_rng), n) == model::sampled_rng(net, n),
    decreases n,
{
    if n > 0 {
        lemma_samples(net, content_rng, (n - 1) as nat);
        let other = net.with_content(content_rng);
        let i = (n - 1) as usize;
        assert(other.link_between(i, net.host()) == net.link_between(i, net.host()));
        assert(other.link_between(net.host(), i) == net.link_between(net.host(), i));
    }
}

proof fn lemma_resolved_outbox(net: NetworkView, content_rng: SeededRng, from: usize, n: nat)
    ensures
        model::resolved_outbox(net.with_content(content_rng), from, n) == model::resolved_outbox(
            net,
            from,
            n,
        ),
    decreases n,
{
    if n > 0 {
        lemma_resolved_outbox(net, content_rng, from, (n - 1) as nat);
    }
}

proof fn lemma_resolved(net: NetworkView, content_rng: SeededRng, n: nat)
    ensures
        model::resolved(net.with_content(content_rng), n) == model::resolved(net, n),
    decreases n,
{
    if n > 0 {
        lemma_resolved(net, content_rng, (n - 1) as nat);
        lemma_resolved_outbox(
            net,
            content_rng,
            (n - 1) as usize,
            net.peers[n - 1].outbox.len(),
        );
    }
}

proof fn lemma_all_scheduled(net: NetworkView, content_rng: SeededRng, packets: Seq<ResolvedView>)
    ensures
        model::all_scheduled(net.with_content(content_rng), packets) == model::all_scheduled(
            net,
            packets,
        ).with_content(content_rng),
    decreases packets.len(),
{
    if packets.len() > 0 {
        lemma_all_scheduled(net, content_rng, packets.drop_last());
        let last = packets.last();
        laws::law_content_does_not_perturb_the_links(
            model::all_scheduled(net, packets.drop_last()),
            content_rng,
            last.from,
            last.to,
            last.bytes,
            last.mode,
        );
    }
}

/// Drawing content changes nothing about a frame: not what is delivered, nor what is told of the
/// connections, nor what becomes of what is sent.
pub proof fn law_content_does_not_perturb_a_frame(
    net: NetworkView,
    content_rng: SeededRng,
    frames: u64,
)
    ensures
        model::advanced(net.with_content(content_rng), frames) == model::advanced(
            net,
            frames,
        ).with_content(content_rng),
        model::collected(net.with_content(content_rng)) == model::collected(net).with_content(
            content_rng,
        ),
        model::stepped(net.with_content(content_rng)) == model::stepped(net).with_content(
            content_rng,
        ),
{
    lemma_advanced(net, content_rng, frames);
    lemma_advanced(net, content_rng, 1);
    lemma_collected(net, content_rng);
    lemma_collected(model::advanced(net, 1), content_rng);
}

proof fn lemma_advanced(net: NetworkView, content_rng: SeededRng, frames: u64)
    ensures
        model::advanced(net.with_content(content_rng), frames) == model::advanced(
            net,
            frames,
        ).with_content(content_rng),
{
    let later = model::delivered(NetworkView { frame: (net.frame + frames) as u64, ..net });
    assert(model::delivered(
        NetworkView { frame: (net.frame + frames) as u64, ..net.with_content(content_rng) },
    ) == later.with_content(content_rng));
    lemma_samples(later, content_rng, later.peers.len());
}

proof fn lemma_collected(net: NetworkView, content_rng: SeededRng)
    ensures
        model::collected(net.with_content(content_rng)) == model::collected(net).with_content(
            content_rng,
        ),
{
    lemma_resolved(model::acquainted(net), content_rng, net.peers.len());
    lemma_all_scheduled(model::drained(net), content_rng, model::outbound(net));
    assert(model::acquainted(net.with_content(content_rng)) == model::acquainted(
        net,
    ).with_content(content_rng));
    assert(model::drained(net.with_content(content_rng)) == model::drained(net).with_content(
        content_rng,
    ));
}

/// Drawing content changes nothing about any number of frames.
pub proof fn law_content_does_not_perturb_a_run(
    net: NetworkView,
    content_rng: SeededRng,
    frames: nat,
)
    ensures
        model::ran(net.with_content(content_rng), frames) == model::ran(net, frames).with_content(
            content_rng,
        ),
    decreases frames,
{
    if frames > 0 {
        law_content_does_not_perturb_a_run(net, content_rng, (frames - 1) as nat);
        law_content_does_not_perturb_a_frame(
            model::ran(net, (frames - 1) as nat),
            content_rng,
            1,
        );
    }
}

/// Something a test does to a network.
pub enum Act {
    /// A peer sends a packet.
    Send { peer: usize, entity: u64, bytes: Seq<u8>, mode: SendMode },
    /// A frame passes.
    Step,
    /// A number is drawn for content.
    Draw,
}

/// The network after one act.
pub open spec fn acted(net: NetworkView, act: Act) -> NetworkView {
    match act {
        Act::Send { peer, entity, bytes, mode } => model::sending(net, peer, entity, bytes, mode),
        Act::Step => model::stepped(net),
        Act::Draw => net.with_content(net.content_rng.after()),
    }
}

/// The network after everything a test did to it.
pub open spec fn played(net: NetworkView, acts: Seq<Act>) -> NetworkView
    decreases acts.len(),
{
    if acts.len() == 0 {
        net
    } else {
        acted(played(net, acts.drop_last()), acts.last())
    }
}

/// An act that is not a draw.
pub open spec fn not_a_draw() -> spec_fn(Act) -> bool {
    |act: Act| !(act is Draw)
}

/// What a test did but for its draws, in order.
pub open spec fn without_draws(acts: Seq<Act>) -> Seq<Act> {
    acts.filter(not_a_draw())
}

/// The generator once as many numbers were drawn from it.
pub open spec fn drawn(rng: SeededRng, draws: nat) -> SeededRng
    decreases draws,
{
    if draws == 0 {
        rng
    } else {
        drawn(rng, (draws - 1) as nat).after()
    }
}

/// How many numbers a test drew.
pub open spec fn draws_in(acts: Seq<Act>) -> nat
    decreases acts.len(),
{
    if acts.len() == 0 {
        0
    } else {
        draws_in(acts.drop_last()) + if acts.last() is Draw {
            1nat
        } else {
            0nat
        }
    }
}

proof fn lemma_acted(net: NetworkView, content_rng: SeededRng, act: Act)
    requires
        !(act is Draw),
    ensures
        acted(net.with_content(content_rng), act) == acted(net, act).with_content(content_rng),
        acted(net, act).content_rng == net.content_rng,
{
    law_content_does_not_perturb_a_frame(net, content_rng, 1);
    law_content_does_not_perturb_a_frame(net, net.content_rng, 1);
    assert(net.with_content(net.content_rng) == net);
}

/// The draws of a run can be left out: but for the generator they are drawn from, all is the same.
proof fn lemma_draws_do_not_matter(net: NetworkView, acts: Seq<Act>)
    ensures
        played(net, without_draws(acts)).agrees_with(played(net, acts)),
    decreases acts.len(),
{
    reveal(Seq::filter);
    if acts.len() > 0 {
        let earlier = acts.drop_last();
        lemma_draws_do_not_matter(net, earlier);
        let before = played(net, earlier);
        let quiet = played(net, without_draws(earlier));
        if !(acts.last() is Draw) {
            assert(without_draws(acts).drop_last() =~= without_draws(earlier));
            lemma_acted(quiet, before.content_rng, acts.last());
        }
    }
}

/// The numbers drawn for content are those of the content's generator, one after the other,
/// whatever else happens meanwhile.
pub proof fn law_content_replays(net: NetworkView, acts: Seq<Act>)
    ensures
        played(net, acts).content_rng == drawn(net.content_rng, draws_in(acts)),
    decreases acts.len(),
{
    if acts.len() > 0 {
        law_content_replays(net, acts.drop_last());
        if !(acts.last() is Draw) {
            let before = played(net, acts.drop_last());
            lemma_acted(before, before.content_rng, acts.last());
        }
    }
}

/// A seed picks the run. Two networks that are alike but for their generators, given one seed and
/// then the same packets and frames, in the same order, end up alike, with the same trace and the
/// same packets in flight and delivered, however often content was drawn on either; and content
/// drawn as often is the same on both.
pub proof fn law_the_same_seed_replays_the_same_run(
    one: NetworkView,
    other: NetworkView,
    seed: u64,
    acts: Seq<Act>,
    other_acts: Seq<Act>,
)
    requires
        other == (NetworkView {
            link_rng: other.link_rng,
            content_rng: other.content_rng,
            ..one
        }),
        without_draws(acts) == without_draws(other_acts),
    ensures
        ({
            let after = played(model::seeded(one, seed), acts);
            let other_after = played(model::seeded(other, seed), other_acts);
            &&& after.agrees_with(other_after)
            &&& after.trace == other_after.trace
            &&& after.in_flight == other_after.in_flight
            &&& after.peers == other_after.peers
            &&& draws_in(acts) == draws_in(other_acts) ==> after == other_after
        }),
{
    let start = model::seeded(one, seed);
    assert(model::seeded(other, seed) == start);
    lemma_draws_do_not_matter(start, acts);
    lemma_draws_do_not_matter(start, other_acts);
    law_content_replays(start, acts);
    law_content_replays(start, other_acts);
}

/// What is kept of packets in order is in order.
proof fn lemma_kept_in_order(packets: Seq<PacketView>, keep: spec_fn(PacketView) -> bool)
    requires
        forall|i: int, j: int|
            #![trigger packets[i], packets[j]]
            0 <= i < j < packets.len() ==> laws::in_send_order(packets[i], packets[j]),
    ensures
        forall|i: int, j: int|
            #![trigger packets.filter(keep)[i], packets.filter(keep)[j]]
            0 <= i < j < packets.filter(keep).len() ==> laws::in_send_order(
                packets.filter(keep)[i],
                packets.filter(keep)[j],
            ),
    decreases packets.len(),
{
    reveal(Seq::filter);
    if packets.len() > 0 {
        let earlier = packets.drop_last();
        let kept = earlier.filter(keep);
        assert forall|i: int, j: int|
            #![trigger earlier[i], earlier[j]]
            0 <= i < j < earlier.len() implies laws::in_send_order(earlier[i], earlier[j]) by {
            assert(packets[i] == earlier[i] && packets[j] == earlier[j]);
        }
        lemma_kept_in_order(earlier, keep);
        assert forall|i: int, j: int|
            #![trigger packets.filter(keep)[i], packets.filter(keep)[j]]
            0 <= i < j < packets.filter(keep).len() implies laws::in_send_order(
            packets.filter(keep)[i],
            packets.filter(keep)[j],
        ) by {
            assert(packets.filter(keep)[i] == kept[i]);
            if j < kept.len() {
                assert(packets.filter(keep)[j] == kept[j]);
            } else {
                lists::lemma_kept_is_part(earlier, keep, i);
                let k = choose|k: int| 0 <= k < earlier.len() && earlier[k] == kept[i];
                assert(laws::in_send_order(packets[k], packets[packets.len() - 1]));
            }
        }
    }
}

/// Delivering what is due, and any number of frames passing, keep the reliable packets of every
/// link in the order they were sent in.
pub proof fn law_delivery_keeps_order(net: NetworkView, frames: u64)
    requires
        net.keeps_order(),
    ensures
        model::delivered(net).keeps_order(),
        model::advanced(net, frames).keeps_order(),
{
    let later = NetworkView { frame: (net.frame + frames) as u64, ..net };
    lemma_same_flights_keep_order(net, later);
    lemma_delivered_keeps_order(net);
    lemma_delivered_keeps_order(later);
    lemma_same_flights_keep_order(model::delivered(later), model::advanced(net, frames));
}

proof fn lemma_same_flights_keep_order(before: NetworkView, after: NetworkView)
    requires
        before.keeps_order(),
        after.in_flight == before.in_flight,
        after.next_seq == before.next_seq,
        after.last_reliable_delivery == before.last_reliable_delivery,
    ensures
        after.keeps_order(),
{
    assert forall|i: int| 0 <= i < after.in_flight.len() implies {
        let packet = #[trigger] after.in_flight[i];
        let key = model::pair_key(packet.from, packet.to);
        &&& packet.seq <= after.seq_of(key)
        &&& packet.reliable ==> packet.deliver_at_frame <= after.last_of(key)
    } by {
        assert(before.in_flight[i] == after.in_flight[i]);
    }
}

proof fn lemma_delivered_keeps_order(net: NetworkView)
    requires
        net.keeps_order(),
    ensures
        model::delivered(net).keeps_order(),
{
    let after = model::delivered(net);
    let keep = model::not_due(net.frame);
    lemma_kept_in_order(net.in_flight, keep);
    assert forall|i: int| 0 <= i < after.in_flight.len() implies {
        let packet = #[trigger] after.in_flight[i];
        let key = model::pair_key(packet.from, packet.to);
        &&& packet.seq <= after.seq_of(key)
        &&& packet.reliable ==> packet.deliver_at_frame <= after.last_of(key)
    } by {
        lists::lemma_kept_is_part(net.in_flight, keep, i);
        let k = choose|k: int|
            0 <= k < net.in_flight.len() && net.in_flight[k] == after.in_flight[i];
        assert(net.in_flight[k] == after.in_flight[i]);
    }
}

/// Whether every packet is from and for a peer there is.
spec fn all_placed(net: NetworkView, packets: Seq<ResolvedView>) -> bool {
    forall|i: int|
        0 <= i < packets.len() ==> (#[trigger] packets[i]).from < net.peers.len()
            && packets[i].to < net.peers.len()
}

proof fn lemma_outbox_is_placed(net: NetworkView, from: usize, n: nat)
    requires
        net.has_host(),
        from < net.peers.len(),
    ensures
        all_placed(net, model::resolved_outbox(net, from, n)),
    decreases n,
{
    if n > 0 {
        lemma_outbox_is_placed(net, from, (n - 1) as nat);
        model::lemma_host_found(net.peers);
        let packet = net.peers[from as int].outbox[n - 1];
        model::lemma_uuid_found(net.peers, net.known_clients[packet.entity]);
    }
}

proof fn lemma_resolved_is_placed(net: NetworkView, n: nat)
    requires
        net.has_host(),
        n <= net.peers.len(),
    ensures
        all_placed(net, model::resolved(net, n)),
    decreases n,
{
    if n > 0 {
        lemma_resolved_is_placed(net, (n - 1) as nat);
        lemma_outbox_is_placed(net, (n - 1) as usize, net.peers[n - 1].outbox.len());
    }
}

/// Handing over packets there is room for keeps the order, and uses up the room for them.
proof fn lemma_all_scheduled_keeps_order(
    net: NetworkView,
    packets: Seq<ResolvedView>,
    more: int,
    more_size: int,
)
    requires
        net.keeps_order(),
        net.in_order(),
        all_placed(net, packets),
        more >= 0,
        more_size >= 0,
        net.has_room(
            packets.len() + more,
            model::total_size(packets) + more_size + corruption::total_growth(
                net.pending_corruptions,
            ),
        ),
    ensures
        ({
            let after = model::all_scheduled(net, packets);
            &&& after.keeps_order()
            &&& after.in_order()
            &&& after.peers == net.peers
            &&& after.has_room(
                more,
                more_size + corruption::total_growth(after.pending_corruptions),
            )
        }),
    decreases packets.len(),
{
    if packets.len() > 0 {
        let earlier = packets.drop_last();
        let last = packets.last();
        assert(last == packets[packets.len() - 1]);
        assert(all_placed(net, earlier)) by {
            assert forall|i: int| 0 <= i < earlier.len() implies (#[trigger] earlier[i]).from
                < net.peers.len() && earlier[i].to < net.peers.len() by {
                assert(earlier[i] == packets[i]);
            }
        }
        let size = last.bytes.len() as int;
        lemma_all_scheduled_keeps_order(net, earlier, more + 1, more_size + size);
        let before = model::all_scheduled(net, earlier);
        let growth = corruption::total_growth(before.pending_corruptions) as int;
        model::lemma_scheduled_keeps(
            before,
            last.from,
            last.to,
            last.bytes,
            last.mode,
            more + 1,
            more_size + size + growth,
        );
        model::lemma_room_for_less(
            before,
            more + 1,
            1,
            more_size + size + growth,
            before.rewritten(last.from, last.to, last.bytes).len() as int,
        );
        laws::law_reliable_order_is_kept(before, last.from, last.to, last.bytes, last.mode);
    }
}

/// A frame keeps the reliable packets of every link in the order they were sent in.
pub proof fn law_a_frame_keeps_order(net: NetworkView)
    requires
        net.keeps_order(),
        model::can_step(net),
    ensures
        model::stepped(net).keeps_order(),
{
    let later = model::advanced(net, 1);
    law_delivery_keeps_order(net, 1);
    network::lemma_advanced_keeps(net, 1);
    let drained = model::drained(later);
    let packets = model::outbound(later);
    let size = model::total_size(packets) + corruption::total_growth(later.pending_corruptions);
    lemma_resolved_is_placed(model::acquainted(later), later.peers.len());
    assert(drained.peers.len() == later.peers.len());
    assert(all_placed(drained, packets));
    lemma_same_flights_keep_order(later, drained);
    model::lemma_same_flights_same_order(later, drained);
    model::lemma_same_counters_same_room(later, drained, packets.len() as int, size);
    lemma_all_scheduled_keeps_order(drained, packets, 0, 0);
}

/// However many frames pass, the reliable packets of every link are in flight in the order they
/// were sent in.
pub proof fn law_a_run_keeps_order(net: NetworkView, frames: nat)
    requires
        net.keeps_order(),
        model::can_run(net, frames),
    ensures
        model::ran(net, frames).keeps_order(),
    decreases frames,
{
    if frames > 0 {
        law_a_run_keeps_order(net, (frames - 1) as nat);
        assert(model::can_step(model::ran(net, (frames - 1) as nat)));
        law_a_frame_keeps_order(model::ran(net, (frames - 1) as nat));
    }
}

} // verus!
