//! What becomes of packets, and what peers are told of their connections, in terms of the links.

use vstd::prelude::*;

use super::laws;
use super::link;
use super::link::Link;
use super::model;
use super::model::{
    Attachment, InboxPacketView, LobbyClient, NetworkView, PeerView, RoundTrip, Sample,
};
use super::packet::{PacketFate, PacketView};
use crate::transport::SendMode;

verus! {

/// Whether `trip` is what a connection can look like that goes up over one link and down over
/// another, in frames of `frame_duration` nanoseconds: as long as both delays together, and no
/// longer than that and both jitters, counted in whole frames.
pub open spec fn fits_the_links(trip: RoundTrip, up: Link, down: Link, frame_duration: u64) -> bool {
    let least = up.delay + down.delay;
    &&& least <= trip.nanos
    &&& trip.nanos <= least + up.jitter + down.jitter + frame_duration
    &&& up.jitter == 0 && down.jitter == 0 ==> trip.nanos == least
    &&& trip.jitter_quarter_nanos == up.jitter + down.jitter
}

/// Twice a number of whole frames, rounded to the nearest, is no more than twice the duration and a
/// frame.
proof fn lemma_rounded(duration: int, frame_duration: int)
    requires
        duration >= 0,
        frame_duration > 0,
    ensures
        2 * (link::frames_in(duration, frame_duration) * frame_duration) <= 2 * duration
            + frame_duration,
        2 * (link::frames_in(duration, frame_duration) * frame_duration) > 2 * duration
            - frame_duration,
        link::frames_in(duration, frame_duration) >= 0,
{
    let whole = 2 * duration + frame_duration;
    let unit = 2 * frame_duration;
    let frames = whole / unit;
    vstd::arithmetic::div_mod::lemma_fundamental_div_mod(whole, unit);
    vstd::arithmetic::div_mod::lemma_mod_bound(whole, unit);
    vstd::arithmetic::div_mod::lemma_div_pos_is_pos(whole, unit);
    assert(unit * frames == 2 * (frames * frame_duration)) by (nonlinear_arith)
        requires
            unit == 2 * frame_duration,
    ;
}

/// No time is no frames.
proof fn lemma_no_time(frame_duration: int)
    requires
        frame_duration > 0,
    ensures
        link::frames_in(0, frame_duration) == 0,
{
    vstd::arithmetic::div_mod::lemma_basic_div(frame_duration, 2 * frame_duration);
}

proof fn lemma_trip(net: NetworkView, i: int, up_frames: u64, down_frames: u64)
    requires
        net.frame_duration > 0,
        0 <= i <= usize::MAX,
        ({
            let up = net.link_between(i as usize, net.host());
            let down = net.link_between(net.host(), i as usize);
            &&& up_frames <= net.frames(up.jitter as int)
            &&& down_frames <= net.frames(down.jitter as int)
        }),
    ensures
        fits_the_links(
            model::trip_of(net, i, up_frames, down_frames),
            net.link_between(i as usize, net.host()),
            net.link_between(net.host(), i as usize),
            net.frame_duration,
        ),
{
    let up = net.link_between(i as usize, net.host());
    let down = net.link_between(net.host(), i as usize);
    let frame = net.frame_duration as int;
    lemma_rounded(up.jitter as int, frame);
    lemma_rounded(down.jitter as int, frame);
    lemma_no_time(frame);
    let most_up = net.frames(up.jitter as int);
    let most_down = net.frames(down.jitter as int);
    assert(0 <= (up_frames + down_frames) * frame <= most_up * frame + most_down * frame)
        by (nonlinear_arith)
        requires
            0 <= up_frames <= most_up,
            0 <= down_frames <= most_down,
            frame > 0,
    ;
    assert(up_frames == 0 && down_frames == 0 ==> (up_frames + down_frames) * frame == 0)
        by (nonlinear_arith);
    assert(up.delay + down.delay + (up_frames + down_frames) * net.frame_duration <= u128::MAX);
}

/// Every sample is of a client's connection, as its links allow it, and every client that receives
/// is sampled.
proof fn lemma_samples(net: NetworkView, n: nat)
    requires
        n <= net.peers.len() <= usize::MAX,
        net.frame_duration > 0,
        forall|from: usize, to: usize|
            net.frames((#[trigger] net.link_between(from, to)).jitter as int) < u64::MAX,
    ensures
        forall|k: int|
            0 <= k < model::samples(net, n).len() ==> {
                let sample = #[trigger] model::samples(net, n)[k];
                exists|i: int|
                    0 <= i < n && (#[trigger] net.peers[i]).uuid == sample.uuid
                        && !net.peers[i].is_host && fits_the_links(
                        sample.trip,
                        net.link_between(i as usize, net.host()),
                        net.link_between(net.host(), i as usize),
                        net.frame_duration,
                    )
            },
        forall|i: int|
            0 <= i < n && !(#[trigger] net.peers[i]).is_host && net.peers[i].attachment.receives()
                ==> exists|k: int|
                0 <= k < model::samples(net, n).len() && (#[trigger] model::samples(net, n)[k]).uuid
                    == net.peers[i].uuid,
    decreases n,
{
    if n > 0 {
        let earlier = model::samples(net, (n - 1) as nat);
        let all = model::samples(net, n);
        let i = n - 1;
        lemma_samples(net, (n - 1) as nat);
        if model::is_sampled(net, i) {
            let rng = model::sampled_rng(net, i as nat);
            let up = net.link_between(i as usize, net.host());
            let down = net.link_between(net.host(), i as usize);
            let up_span = model::jitter_span(net, up);
            let down_span = model::jitter_span(net, down);
            model::lemma_frames_not_negative(up.jitter as int, net.frame_duration as int);
            model::lemma_frames_not_negative(down.jitter as int, net.frame_duration as int);
            lemma_trip(
                net,
                i,
                rng.next_below(up_span),
                rng.after_below(up_span).next_below(down_span),
            );
            assert(all[all.len() - 1].uuid == net.peers[i].uuid);
        }
        assert forall|k: int| 0 <= k < all.len() implies {
            let sample = #[trigger] all[k];
            exists|j: int|
                0 <= j < n && (#[trigger] net.peers[j]).uuid == sample.uuid && !net.peers[j].is_host
                    && fits_the_links(
                    sample.trip,
                    net.link_between(j as usize, net.host()),
                    net.link_between(net.host(), j as usize),
                    net.frame_duration,
                )
        } by {
            if k < earlier.len() {
                let sample = earlier[k];
                assert(all[k] == sample);
                let j = choose|j: int|
                    0 <= j < n - 1 && (#[trigger] net.peers[j]).uuid == sample.uuid
                        && !net.peers[j].is_host && fits_the_links(
                        sample.trip,
                        net.link_between(j as usize, net.host()),
                        net.link_between(net.host(), j as usize),
                        net.frame_duration,
                    );
                assert(net.peers[j].uuid == sample.uuid);
            } else {
                assert(net.peers[i].uuid == all[k].uuid);
            }
        }
        assert forall|j: int|
            0 <= j < n && !(#[trigger] net.peers[j]).is_host
                && net.peers[j].attachment.receives() implies exists|k: int|
            0 <= k < all.len() && (#[trigger] all[k]).uuid == net.peers[j].uuid by {
            if j < n - 1 {
                let k = choose|k: int|
                    0 <= k < earlier.len() && (#[trigger] earlier[k]).uuid == net.peers[j].uuid;
                assert(all[k] == earlier[k]);
            }
        }
    }
}

proof fn lemma_trip_for(samples: Seq<Sample>, uuid: u128)
    ensures
        model::trip_for(samples, uuid) matches Some(trip) ==> exists|k: int|
            0 <= k < samples.len() && (#[trigger] samples[k]).uuid == uuid && samples[k].trip
                == trip,
        model::trip_for(samples, uuid) is None ==> forall|k: int|
            0 <= k < samples.len() ==> (#[trigger] samples[k]).uuid != uuid,
    decreases samples.len(),
{
    if samples.len() > 0 && samples[0].uuid != uuid {
        let later = samples.drop_first();
        lemma_trip_for(later, uuid);
        if let Some(trip) = model::trip_for(samples, uuid) {
            let k = choose|k: int|
                0 <= k < later.len() && (#[trigger] later[k]).uuid == uuid && later[k].trip == trip;
            assert(samples[k + 1] == later[k]);
        } else {
            assert forall|k: int| 0 <= k < samples.len() implies (
            #[trigger] samples[k]).uuid != uuid by {
                if k > 0 {
                    assert(later[k - 1] == samples[k]);
                }
            }
        }
    } else if samples.len() > 0 {
        assert(samples[0].uuid == uuid);
    }
}

/// Nobody has the uuid of another.
pub open spec fn uuids_differ(peers: Seq<PeerView>) -> bool {
    forall|i: int, j: int|
        0 <= i < j < peers.len() ==> (#[trigger] peers[i]).uuid != (#[trigger] peers[j]).uuid
}

proof fn lemma_measured(peers: Seq<PeerView>, samples: Seq<Sample>, p: int)
    requires
        uuids_differ(peers),
        0 <= p < peers.len(),
        peers[p].lobby is Some,
    ensures
        ({
            let after = model::measured_lobbies(peers, samples)[p];
            let sampled = exists|k: int|
                0 <= k < samples.len() && (#[trigger] samples[k]).uuid == peers[p].uuid;
            &&& sampled ==> exists|k: int|
                0 <= k < samples.len() && (#[trigger] samples[k]).uuid == peers[p].uuid && (
                after.lobby->0).rtt == Some(samples[k].trip)
            &&& !sampled ==> after.lobby == peers[p].lobby
        }),
    decreases samples.len(),
{
    model::lemma_measured_keeps(peers, samples);
    if samples.len() > 0 {
        let earlier = samples.drop_last();
        let last = samples.last();
        let before = model::measured_lobbies(peers, earlier);
        lemma_measured(peers, earlier, p);
        model::lemma_measured_keeps(peers, earlier);
        model::lemma_uuid_found(before, last.uuid);
        let found = model::uuid_position(before, last.uuid);
        assert(samples[samples.len() - 1] == last);
        if last.uuid == peers[p].uuid {
            assert(before[p].uuid == last.uuid);
            lemma_uuid_stands(before, last.uuid, p);
        } else {
            if found < before.len() {
                assert(before[found].uuid == peers[found].uuid);
                assert(found != p);
            }
            let after = model::measured_lobbies(peers, samples)[p];
            assert(after == before[p]);
            if exists|k: int|
                0 <= k < samples.len() && (#[trigger] samples[k]).uuid == peers[p].uuid {
                let k = choose|k: int|
                    0 <= k < samples.len() && (#[trigger] samples[k]).uuid == peers[p].uuid;
                assert(earlier[k] == samples[k]);
                let j = choose|j: int|
                    0 <= j < earlier.len() && (#[trigger] earlier[j]).uuid == peers[p].uuid && (
                    before[p].lobby->0).rtt == Some(earlier[j].trip);
                assert(samples[j] == earlier[j]);
            } else {
                assert forall|k: int| 0 <= k < earlier.len() implies (
                #[trigger] earlier[k]).uuid != peers[p].uuid by {
                    assert(samples[k] == earlier[k]);
                }
            }
        }
    }
}

/// The first peer that is `uuid` is the only one.
proof fn lemma_uuid_stands(peers: Seq<PeerView>, uuid: u128, p: int)
    requires
        0 <= p < peers.len(),
        peers[p].uuid == uuid,
        forall|i: int| 0 <= i < peers.len() && i != p ==> (#[trigger] peers[i]).uuid != uuid,
    ensures
        model::uuid_position(peers, uuid) == p,
{
    model::lemma_uuid_position(peers, uuid, p);
}

/// The round trip that a client that receives is told of, and that its host is told of it, is what
/// its two links make it: the way up to the host and the way down from it, each counted once. It is
/// at least both delays together, at most that and both jitters, counted in whole frames, and
/// without jitter it is exactly the two delays.
pub proof fn law_a_round_trip_goes_up_and_down(net: NetworkView, client: int)
    requires
        net.has_host(),
        uuids_differ(net.peers),
        net.frame_duration > 0,
        net.clock_has_room(0),
        0 <= client < net.peers.len(),
        !net.peers[client].is_host,
        net.peers[client].attachment == Attachment::Connected || net.peers[client].attachment
            == Attachment::Pending || net.peers[client].attachment == Attachment::HalfOpen,
    ensures
        ({
            let after = model::published(net);
            let up = net.link_between(client as usize, net.host());
            let down = net.link_between(net.host(), client as usize);
            &&& net.peers[client].lobby is Some ==> {
                &&& after.peers[client].lobby is Some
                &&& (after.peers[client].lobby->0).entity == (net.peers[client].lobby->0).entity
                &&& (after.peers[client].lobby->0).pending == (net.peers[client].lobby->0).pending
                &&& (after.peers[client].lobby->0).rtt is Some
                &&& fits_the_links(
                    (after.peers[client].lobby->0).rtt->0,
                    up,
                    down,
                    net.frame_duration,
                )
            }
            &&& after.peers[net.host() as int].clients.len()
                == net.peers[net.host() as int].clients.len()
            &&& forall|c: int|
                0 <= c < net.peers[net.host() as int].clients.len() ==> {
                    let before = net.peers[net.host() as int].clients[c];
                    let now = #[trigger] after.peers[net.host() as int].clients[c];
                    &&& now == (LobbyClient { rtt: now.rtt, ..before })
                    &&& before.uuid == net.peers[client].uuid ==> now.rtt is Some
                        && fits_the_links(now.rtt->0, up, down, net.frame_duration)
                }
        }),
{
    let host = net.host() as int;
    let taken = model::samples(net, net.peers.len());
    model::lemma_host_found(net.peers);
    assert forall|from: usize, to: usize|
        net.frames((#[trigger] net.link_between(from, to)).jitter as int) < u64::MAX by {
        let link = net.link_between(from, to);
        assert(net.frame + net.longest(link) + 2 <= u64::MAX);
        model::lemma_frames_not_negative(link.delay as int, net.frame_duration as int);
        model::lemma_frames_not_negative(2 * link.delay, net.frame_duration as int);
    }
    lemma_samples(net, net.peers.len());
    let told = net.peers.update(
        host,
        PeerView {
            clients: model::measured_clients(net.peers[host].clients, taken),
            ..net.peers[host]
        },
    );
    let after = model::published(net);
    model::lemma_measured_keeps(told, taken);
    assert(uuids_differ(told)) by {
        assert forall|i: int, j: int| 0 <= i < j < told.len() implies (#[trigger] told[i]).uuid != (
        #[trigger] told[j]).uuid by {
            assert(net.peers[i].uuid != net.peers[j].uuid);
        }
    }
    // A sample of this client's uuid is of this client.
    assert forall|k: int|
        0 <= k < taken.len() && (#[trigger] taken[k]).uuid
            == net.peers[client].uuid implies fits_the_links(
        taken[k].trip,
        net.link_between(client as usize, net.host()),
        net.link_between(net.host(), client as usize),
        net.frame_duration,
    ) by {
        let i = choose|i: int|
            0 <= i < net.peers.len() && (#[trigger] net.peers[i]).uuid == taken[k].uuid
                && !net.peers[i].is_host && fits_the_links(
                taken[k].trip,
                net.link_between(i as usize, net.host()),
                net.link_between(net.host(), i as usize),
                net.frame_duration,
            );
        if i < client {
            assert(net.peers[i].uuid != net.peers[client].uuid);
        } else if client < i {
            assert(net.peers[client].uuid != net.peers[i].uuid);
        }
    }
    assert(exists|k: int|
        0 <= k < taken.len() && (#[trigger] taken[k]).uuid == net.peers[client].uuid);
    if net.peers[client].lobby is Some {
        lemma_measured(told, taken, client);
    }
    assert forall|c: int| 0 <= c < net.peers[host].clients.len() implies {
        let before = net.peers[host].clients[c];
        let now = #[trigger] after.peers[host].clients[c];
        &&& now == (LobbyClient { rtt: now.rtt, ..before })
        &&& before.uuid == net.peers[client].uuid ==> now.rtt is Some && fits_the_links(
            now.rtt->0,
            net.link_between(client as usize, net.host()),
            net.link_between(net.host(), client as usize),
            net.frame_duration,
        )
    } by {
        lemma_trip_for(taken, net.peers[host].clients[c].uuid);
    }
}

/// Telling peers of their connections changes nothing else: not who they are, what they have to
/// send, what they were sent, nor anything on its way.
pub proof fn law_measuring_changes_nothing_else(net: NetworkView, i: int)
    requires
        net.has_host(),
        0 <= i < net.peers.len(),
    ensures
        ({
            let after = model::published(net);
            let now = after.peers[i];
            let before = net.peers[i];
            &&& after == (NetworkView { peers: after.peers, link_rng: after.link_rng, ..net })
            &&& after.peers.len() == net.peers.len()
            &&& now == (PeerView { lobby: now.lobby, clients: now.clients, ..before })
            &&& !before.is_host ==> now.clients == before.clients
        }),
{
    let host = net.host() as int;
    model::lemma_host_found(net.peers);
    let taken = model::samples(net, net.peers.len());
    let told = net.peers.update(
        host,
        PeerView {
            clients: model::measured_clients(net.peers[host].clients, taken),
            ..net.peers[host]
        },
    );
    model::lemma_measured_keeps(told, taken);
}

/// What the frames of `packets` bring a peer, in order: those that are for it, with whom they are
/// from.
pub open spec fn arrivals(packets: Seq<PacketView>, peer: usize) -> Seq<InboxPacketView>
    decreases packets.len(),
{
    if packets.len() == 0 {
        Seq::empty()
    } else {
        let earlier = arrivals(packets.drop_last(), peer);
        if packets.last().to == peer {
            earlier.push(
                InboxPacketView {
                    sender: packets.last().from_uuid,
                    bytes: packets.last().bytes,
                },
            )
        } else {
            earlier
        }
    }
}

proof fn lemma_handed(peers: Seq<PeerView>, packets: Seq<PacketView>, p: int)
    requires
        0 <= p < peers.len() <= usize::MAX,
        forall|i: int| 0 <= i < packets.len() ==> (#[trigger] packets[i]).to < peers.len(),
    ensures
        ({
            let now = model::all_handed(peers, packets)[p];
            let before = peers[p];
            now == (PeerView {
                inbox: if before.attachment.receives() {
                    before.inbox + arrivals(packets, p as usize)
                } else {
                    before.inbox
                },
                ..before
            })
        }),
    decreases packets.len(),
{
    if packets.len() > 0 {
        let earlier = packets.drop_last();
        lemma_handed(peers, earlier, p);
        model::lemma_handed_keeps(peers, earlier);
        let handed = model::all_handed(peers, earlier);
        let last = packets[packets.len() - 1];
        assert(handed[last.to as int].attachment == peers[last.to as int].attachment);
        let before = peers[p];
        if last.to == p && before.attachment.receives() {
            assert(model::all_handed(peers, packets)[p].inbox =~= before.inbox + arrivals(
                packets,
                p as usize,
            ));
        }
    } else {
        assert(peers[p].inbox + arrivals(packets, p as usize) =~= peers[p].inbox);
    }
}

/// A peer that can receive gets every packet that has come due for it, with its bytes and its
/// sender, in the order packets are delivered in, behind what it has not read yet; one that cannot
/// gets none. Nothing that is not due is delivered, and what was delivered is on its way no more.
pub proof fn law_what_is_due_is_delivered(net: NetworkView, p: int)
    requires
        net.in_order(),
        0 <= p < net.peers.len() <= usize::MAX,
    ensures
        ({
            let after = model::delivered(net);
            let due = net.in_flight.filter(
                |packet: PacketView| packet.deliver_at_frame <= net.frame,
            );
            let receives = net.peers[p].attachment == Attachment::Connected
                || net.peers[p].attachment == Attachment::Pending || net.peers[p].attachment
                == Attachment::HalfOpen;
            &&& after == (NetworkView { peers: after.peers, in_flight: after.in_flight, ..net })
            &&& after.peers.len() == net.peers.len()
            &&& after.peers[p] == (PeerView { inbox: after.peers[p].inbox, ..net.peers[p] })
            &&& !receives ==> after.peers[p].inbox == net.peers[p].inbox
            &&& receives ==> exists|order: Seq<PacketView>|
                {
                    &&& #[trigger] order.to_multiset() == due.to_multiset()
                    &&& laws::is_sorted(order)
                    &&& after.peers[p].inbox == net.peers[p].inbox + arrivals(order, p as usize)
                }
            &&& after.in_flight == net.in_flight.filter(
                |packet: PacketView| packet.deliver_at_frame > net.frame,
            )
        }),
{
    let due = net.in_flight.filter(model::due(net.frame));
    let order = model::sorted(due);
    let known = |packet: PacketView| net.packet_in_order(packet);
    assert forall|i: int| 0 <= i < net.in_flight.len() implies known(
        #[trigger] net.in_flight[i],
    ) by {
        assert(net.packet_in_order(net.in_flight[i]));
    }
    model::lemma_filtered_all(net.in_flight, model::due(net.frame), known);
    model::lemma_sorted_all(due, known);
    assert forall|i: int| 0 <= i < order.len() implies (#[trigger] order[i]).to
        < net.peers.len() by {
        assert(known(order[i]));
    }
    laws::law_due_packets_are_sorted(due);
    model::lemma_handed_keeps(net.peers, order);
    lemma_handed(net.peers, order, p);
    assert(model::due(net.frame) =~= (|packet: PacketView| packet.deliver_at_frame <= net.frame));
    assert(model::not_due(net.frame) =~= (|packet: PacketView|
        packet.deliver_at_frame > net.frame));
    assert(order.to_multiset() == due.to_multiset());
}

/// Of two packets that are due together, the one that arrives on the earlier frame is delivered
/// first; on one frame the one from the peer that joined first, and of those the one to the peer
/// that did; and on one link the one that stands first in the link's send order.
pub proof fn law_earlier_packets_come_first(one: PacketView, other: PacketView)
    ensures
        one.deliver_at_frame == other.deliver_at_frame && one.from < other.from ==> one.precedes(
            other,
        ) && !other.precedes(one),
        one.deliver_at_frame == other.deliver_at_frame && one.from == other.from && one.to
            < other.to ==> one.precedes(other) && !other.precedes(one),
        one.deliver_at_frame < other.deliver_at_frame ==> one.precedes(other) && !other.precedes(
            one,
        ),
        one.deliver_at_frame == other.deliver_at_frame && one.from == other.from && one.to
            == other.to && one.seq < other.seq ==> one.precedes(other) && !other.precedes(one),
        !one.precedes(one),
        one.precedes(other) ==> !other.precedes(one),
{
}

/// How long a packet is under way on a link in frames of `frame_duration` nanoseconds: at least a
/// frame, no less than its delay and no more than its delay, its jitter and `extra`, all counted in
/// whole frames.
pub open spec fn takes_as_long_as(
    frames: int,
    link: Link,
    frame_duration: u64,
    extra: int,
) -> bool {
    &&& frames >= 1
    &&& frames > 1 ==> 2 * (frames * frame_duration) > 2 * link.delay - frame_duration
    &&& frames == 1 ==> 2 * link.delay < 3 * frame_duration
    &&& frames > 1 ==> 2 * (frames * frame_duration) <= 2 * (link.delay + link.jitter + extra) + 3
        * frame_duration
    &&& frames > 1 && link.jitter == 0 && extra == 0 ==> 2 * (frames * frame_duration) <= 2
        * link.delay + frame_duration
}

/// A number of frames that is made up of a delay, a jitter and what a retransmission adds.
proof fn lemma_takes(
    delay: int,
    jitter: int,
    again: int,
    link: Link,
    frame_duration: u64,
    extra: int,
)
    requires
        frame_duration > 0,
        extra >= 0,
        delay == link::frames_in(link.delay as int, frame_duration as int),
        0 <= jitter <= link::frames_in(link.jitter as int, frame_duration as int),
        again == 0 || again == link::frames_in(extra, frame_duration as int),
        extra == 0 ==> again == 0,
    ensures
        takes_as_long_as(
            if delay + jitter + again > 1 {
                delay + jitter + again
            } else {
                1
            },
            link,
            frame_duration,
            extra,
        ),
{
    let frame = frame_duration as int;
    lemma_rounded(link.delay as int, frame);
    lemma_rounded(link.jitter as int, frame);
    lemma_rounded(extra, frame);
    lemma_no_time(frame);
    let most = link::frames_in(link.jitter as int, frame);
    let more = link::frames_in(extra, frame);
    let frames = delay + jitter + again;
    assert(frames * frame == delay * frame + jitter * frame + again * frame) by (nonlinear_arith)
        requires
            frames == delay + jitter + again,
    ;
    assert(0 <= jitter * frame <= most * frame) by (nonlinear_arith)
        requires
            0 <= jitter <= most,
            frame > 0,
    ;
    assert(0 <= again * frame <= more * frame) by (nonlinear_arith)
        requires
            again == 0 || again == more,
            more >= 0,
            frame > 0,
    ;
    assert(jitter == 0 ==> jitter * frame == 0) by (nonlinear_arith);
    assert(again == 0 ==> again * frame == 0) by (nonlinear_arith);
    assert(delay <= 1 ==> delay * frame <= frame) by (nonlinear_arith)
        requires
            frame > 0,
    ;
}

/// An unreliable packet on a link that loses, doubles and reorders nothing is under way as long as
/// the link takes: exactly one more packet is in flight, with the same bytes, from whom it was sent
/// to whom it was sent. Where jitter is on the link it takes longer by no more than that.
pub proof fn law_an_unreliable_packet_takes_its_links_time(
    net: NetworkView,
    from: usize,
    to: usize,
    bytes: Seq<u8>,
)
    requires
        net.reaches(from, to),
        net.frame_duration > 0,
        net.clock_has_room(1),
        net.pending_corruptions.len() == 0,
        net.drops_of(model::pair_key(from, to)) == 0,
        ({
            let link = net.link_between(from, to);
            &&& link.loss.0 == 0
            &&& link.duplicate.0 == 0
            &&& link.reorder.0 == 0
            &&& link.max_message_size matches Some(limit) ==> bytes.len() <= limit
        }),
    ensures
        ({
            let after = model::scheduled(net, from, to, bytes, SendMode::Unreliable);
            let packet = after.in_flight.last();
            &&& after.in_flight == net.in_flight.push(packet)
            &&& packet.bytes == bytes
            &&& packet.from == from
            &&& packet.to == to
            &&& packet.from_uuid == net.peers[from as int].uuid
            &&& !packet.reliable
            &&& takes_as_long_as(
                packet.deliver_at_frame - net.frame,
                net.link_between(from, to),
                net.frame_duration,
                0,
            )
            &&& net.trace matches Some(trace) ==> after.trace matches Some(longer) && longer.len()
                == trace.len() + 1 && longer.last().fate == (PacketFate::Delivered {
                at_frame: packet.deliver_at_frame,
            })
        }),
{
    let link = net.link_between(from, to);
    let after = model::scheduled(net, from, to, bytes, SendMode::Unreliable);
    lemma_way(net, from, to);
    let jitter = if link.jitter > 0 {
        net.link_rng.next_below((net.frames(link.jitter as int) + 1) as u64) as int
    } else {
        0
    };
    lemma_takes(net.frames(link.delay as int), jitter, 0, link, net.frame_duration, 0);
    assert(after.in_flight =~= net.in_flight.push(after.in_flight.last()));
}

/// The clock has room for what a link can take.
proof fn lemma_way(net: NetworkView, from: usize, to: usize)
    requires
        net.clock_has_room(1),
    ensures
        ({
            let link = net.link_between(from, to);
            let most = net.frames(link.jitter as int);
            &&& 0 <= net.frames(link.delay as int)
            &&& 0 <= most < u64::MAX
            &&& 0 <= net.frames(2 * link.delay)
            &&& net.link_rng.next_below((most + 1) as u64) <= most
            &&& net.frame + net.frames(link.delay as int) + most + net.frames(2 * link.delay) + 3
                <= u64::MAX
        }),
{
    let link = net.link_between(from, to);
    model::lemma_frames_not_negative(link.delay as int, net.frame_duration as int);
    model::lemma_frames_not_negative(link.jitter as int, net.frame_duration as int);
    model::lemma_frames_not_negative(2 * link.delay, net.frame_duration as int);
    assert(net.frame + net.longest(link) + 1 + 2 <= u64::MAX);
}

/// A reliable packet takes as long as its link takes, and, where it has to be sent again, as long as
/// it takes to find that out: twice the link's delay. On a link that loses nothing it is never sent
/// again. It waits for the reliable packets that were sent before it.
pub proof fn law_a_reliable_packet_takes_its_links_time(
    net: NetworkView,
    from: usize,
    to: usize,
    bytes: Seq<u8>,
    mode: SendMode,
)
    requires
        net.reaches(from, to),
        net.frame_duration > 0,
        net.clock_has_room(1),
        mode == SendMode::Reliable || mode == SendMode::ReliableNoDelay,
        net.pending_corruptions.len() == 0,
    ensures
        ({
            let after = model::scheduled(net, from, to, bytes, mode);
            let packet = after.in_flight.last();
            let link = net.link_between(from, to);
            let last = net.last_of(model::pair_key(from, to));
            &&& after.in_flight == net.in_flight.push(packet)
            &&& packet.bytes == bytes
            &&& packet.from_uuid == net.peers[from as int].uuid
            &&& packet.deliver_at_frame >= last
            &&& packet.deliver_at_frame == last || takes_as_long_as(
                packet.deliver_at_frame - net.frame,
                link,
                net.frame_duration,
                if link.loss.0 == 0 {
                    0
                } else {
                    2 * link.delay
                },
            )
            &&& after.last_of(model::pair_key(from, to)) == packet.deliver_at_frame
        }),
{
    let link = net.link_between(from, to);
    let after = model::scheduled(net, from, to, bytes, mode);
    lemma_way(net, from, to);
    let spread = (net.frames(link.jitter as int) + 1) as u64;
    let (jitter, rng) = if link.jitter > 0 {
        (net.link_rng.next_below(spread) as int, net.link_rng.after_below(spread))
    } else {
        (0int, net.link_rng)
    };
    let lost = link.loss.0 > 0 && rng.next_happens(link.loss);
    lemma_no_time(net.frame_duration as int);
    lemma_takes(
        net.frames(link.delay as int),
        jitter,
        if lost {
            net.frames(2 * link.delay)
        } else {
            0
        },
        link,
        net.frame_duration,
        if link.loss.0 == 0 {
            0
        } else {
            2 * link.delay
        },
    );
    assert(after.in_flight =~= net.in_flight.push(after.in_flight.last()));
}

/// What happens to a packet that is certain to happen: on a link that loses every packet an
/// unreliable one is lost, and on one that loses none and doubles every packet it arrives twice, a
/// frame apart, with the same bytes both times.
pub proof fn law_what_is_certain_happens(
    net: NetworkView,
    from: usize,
    to: usize,
    bytes: Seq<u8>,
)
    requires
        net.reaches(from, to),
        net.clock_has_room(1),
        net.trace is Some,
        net.pending_corruptions.len() == 0,
        net.drops_of(model::pair_key(from, to)) == 0,
        net.link_between(from, to).max_message_size is None,
        net.link_between(from, to).reorder.0 == 0,
    ensures
        ({
            let link = net.link_between(from, to);
            let after = model::scheduled(net, from, to, bytes, SendMode::Unreliable);
            let fate = (after.trace->0).last().fate;
            let sent = net.in_flight.len() as int;
            &&& link.loss.0 >= 16_777_216 ==> fate == PacketFate::Dropped && after.in_flight
                == net.in_flight
            &&& link.loss.0 == 0 && link.duplicate.0 >= 16_777_216 ==> {
                let first = after.in_flight[sent];
                let second = after.in_flight[sent + 1];
                &&& after.in_flight == net.in_flight.push(first).push(second)
                &&& first.bytes == bytes && second.bytes == bytes
                &&& first.to == to && second.to == to
                &&& first.from == from && second.from == from
                &&& first.deliver_at_frame == second.deliver_at_frame + 1
                &&& fate == (PacketFate::Duplicated {
                    at_frames: (second.deliver_at_frame, first.deliver_at_frame),
                })
            }
            &&& link.loss.0 == 0 && link.duplicate.0 == 0 ==> fate is Delivered
        }),
{
    let link = net.link_between(from, to);
    let after = model::scheduled(net, from, to, bytes, SendMode::Unreliable);
    lemma_way(net, from, to);
    let spread = (net.frames(link.jitter as int) + 1) as u64;
    let rng = if link.jitter > 0 {
        net.link_rng.after_below(spread)
    } else {
        net.link_rng
    };
    let drawn = rng.after().0;
    assert(drawn >> 40 < 16_777_216) by (bit_vector);
    let sent = net.in_flight.len() as int;
    if link.loss.0 == 0 && link.duplicate.0 >= 16_777_216 {
        assert(after.in_flight =~= net.in_flight.push(after.in_flight[sent]).push(
            after.in_flight[sent + 1],
        ));
    }
}

/// An unreliable packet that is larger than its link carries is dropped, and nothing else of the
/// link happens to it; a reliable one of the same size is carried.
pub proof fn law_only_unreliable_packets_are_too_large(
    net: NetworkView,
    from: usize,
    to: usize,
    bytes: Seq<u8>,
    limit: usize,
)
    requires
        net.reaches(from, to),
        net.pending_corruptions.len() == 0,
        net.trace is Some,
        net.link_between(from, to).max_message_size == Some(limit),
        bytes.len() > limit,
    ensures
        ({
            let dropped = model::scheduled(net, from, to, bytes, SendMode::Unreliable);
            let carried = model::scheduled(net, from, to, bytes, SendMode::Reliable);
            &&& (dropped.trace->0).last().fate == PacketFate::Oversize
            &&& dropped.in_flight == net.in_flight
            &&& dropped.link_rng == net.link_rng
            &&& dropped.drops_of(model::pair_key(from, to)) == net.drops_of(
                model::pair_key(from, to),
            )
            &&& (carried.trace->0).last().fate is Delivered
            &&& carried.in_flight.len() == net.in_flight.len() + 1
        }),
{
}

/// What is sent where nobody is, or by who is heard by nobody, goes nowhere: it is counted, and its
/// fate says so.
pub proof fn law_nobody_hears_who_is_not_there(
    net: NetworkView,
    from: usize,
    to: usize,
    bytes: Seq<u8>,
    mode: SendMode,
)
    requires
        ({
            let sender = net.peers[from as int].attachment;
            let recipient = net.peers[to as int].attachment;
            ||| sender == Attachment::HalfOpen || sender == Attachment::Disconnected || sender
                == Attachment::Left
            ||| recipient == Attachment::Disconnected || recipient == Attachment::Left
        }),
    ensures
        ({
            let after = model::scheduled(net, from, to, bytes, mode);
            &&& after.in_flight == net.in_flight
            &&& after.link_rng == net.link_rng
            &&& net.trace is Some ==> (after.trace->0).last().fate == PacketFate::Unreachable
        }),
{
}

/// A client speaks to the host and to nobody else; a host speaks to the peer that the client it
/// addresses is, or was.
pub proof fn law_packets_go_to_whom_they_are_addressed(
    net: NetworkView,
    from: usize,
    entity: u64,
    client: int,
)
    requires
        net.has_host(),
        from < net.peers.len(),
        uuids_differ(net.peers),
        0 <= client < net.peers.len(),
    ensures
        !net.peers[from as int].is_host ==> model::destination(net, from, entity) == Some(
            net.host(),
        ),
        net.peers[net.host() as int].is_host,
        net.peers[from as int].is_host && net.known_clients.dom().contains(entity)
            && net.known_clients[entity] == net.peers[client].uuid ==> model::destination(
            net,
            from,
            entity,
        ) == Some(client as usize),
        net.peers[from as int].is_host && !net.known_clients.dom().contains(entity)
            ==> model::destination(net, from, entity) is None,
{
    model::lemma_host_found(net.peers);
    if net.known_clients.dom().contains(entity) && net.known_clients[entity]
        == net.peers[client].uuid {
        assert forall|i: int| 0 <= i < net.peers.len() && i != client implies (
        #[trigger] net.peers[i]).uuid != net.peers[client].uuid by {
            if i < client {
                assert(net.peers[i].uuid != net.peers[client].uuid);
            } else {
                assert(net.peers[client].uuid != net.peers[i].uuid);
            }
        }
        lemma_uuid_stands(net.peers, net.peers[client].uuid, client);
    }
}

} // verus!
