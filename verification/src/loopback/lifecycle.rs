//! What becomes of a peer that comes, goes, or drops off the network, and of what was on its way
//! then.

use vstd::prelude::*;

use super::corruption::CorruptionView;
use super::link;
use super::link::Link;
use super::model;
use super::model::{Attachment, LobbyClient, NetworkView, PeerLobby, PeerView};
use super::packet;
use super::packet::PacketView;
use super::rng;
use super::rng::SeededRng;
use crate::lists;
use crate::transport::SendMode;

verus! {

/// Whether no two of a host's clients are the same player.
pub open spec fn clients_differ(clients: Seq<LobbyClient>) -> bool {
    forall|i: int, j: int|
        0 <= i < j < clients.len() ==> (#[trigger] clients[i]).uuid != (#[trigger] clients[j]).uuid
}

/// Whether all peers but one are as they were.
pub open spec fn others_stay(before: Seq<PeerView>, after: Seq<PeerView>, peer: int, host: int) -> bool {
    &&& after.len() == before.len()
    &&& forall|i: int|
        0 <= i < before.len() && i != peer && i != host ==> #[trigger] after[i] == before[i]
    &&& after[host] == (PeerView { clients: after[host].clients, ..before[host] })
}

/// Whether two networks differ in their peers, in what is in flight and in how many names were
/// given out, and in nothing else.
pub open spec fn only_peers_change(before: NetworkView, after: NetworkView) -> bool {
    after == (NetworkView {
        peers: after.peers,
        in_flight: after.in_flight,
        next_entity: after.next_entity,
        ..before
    })
}

proof fn lemma_filtered(packets: Seq<PacketView>, fits: spec_fn(PacketView) -> bool)
    ensures
        forall|packet: PacketView| #[trigger]
            packets.filter(fits).contains(packet) == (packets.contains(packet) && fits(packet)),
{
    let kept = packets.filter(fits);
    assert forall|packet: PacketView| #[trigger] kept.contains(packet) == (packets.contains(packet)
        && fits(packet)) by {
        if kept.contains(packet) {
            let k = choose|k: int| 0 <= k < kept.len() && kept[k] == packet;
            lists::lemma_kept_is_part(packets, fits, k);
        }
        if packets.contains(packet) && fits(packet) {
            let i = choose|i: int| 0 <= i < packets.len() && packets[i] == packet;
            lists::lemma_fitting_is_kept(packets, fits, i);
        }
    }
}

proof fn lemma_without(clients: Seq<LobbyClient>, uuid: u128)
    requires
        clients_differ(clients),
    ensures
        forall|client: LobbyClient| #[trigger]
            model::without_client(clients, uuid).contains(client) == (clients.contains(client)
                && client.uuid != uuid),
    decreases clients.len(),
{
    let rest = model::without_client(clients, uuid);
    if clients.len() > 0 {
        let later = clients.drop_first();
        assert forall|i: int, j: int| 0 <= i < j < later.len() implies (#[trigger] later[i]).uuid
            != (#[trigger] later[j]).uuid by {
            assert(later[i] == clients[i + 1] && later[j] == clients[j + 1]);
        }
        lemma_without(later, uuid);
        let more = model::without_client(later, uuid);
        assert forall|client: LobbyClient| #[trigger] rest.contains(client) == (clients.contains(
            client,
        ) && client.uuid != uuid) by {
            if clients[0].uuid == uuid {
                if rest.contains(client) {
                    let k = choose|k: int| 0 <= k < rest.len() && rest[k] == client;
                    assert(clients[k + 1] == client);
                    assert(clients[0].uuid != clients[k + 1].uuid);
                }
                if clients.contains(client) && client.uuid != uuid {
                    let k = choose|k: int| 0 <= k < clients.len() && clients[k] == client;
                    assert(rest[k - 1] == client);
                }
            } else {
                if rest.contains(client) {
                    let k = choose|k: int| 0 <= k < rest.len() && rest[k] == client;
                    if k == 0 {
                        assert(clients[0] == client);
                    } else {
                        assert(more[k - 1] == client);
                        assert(more.contains(client));
                        let i = choose|i: int| 0 <= i < later.len() && later[i] == client;
                        assert(clients[i + 1] == client);
                    }
                }
                if clients.contains(client) && client.uuid != uuid {
                    let k = choose|k: int| 0 <= k < clients.len() && clients[k] == client;
                    if k == 0 {
                        assert(rest[0] == client);
                    } else {
                        assert(later[k - 1] == client);
                        assert(more.contains(client));
                        let i = choose|i: int| 0 <= i < more.len() && more[i] == client;
                        assert(rest[i + 1] == client);
                    }
                }
            }
        }
    }
}

/// A peer that drops off the network neither sends nor receives, and the host has no client for it
/// any more, but for it alone. What was on its way to it is lost, and what it had sent still
/// arrives. It keeps its lobby: it does not know.
pub proof fn law_a_dropped_peer_is_lost_to_the_host(
    net: NetworkView,
    peer: usize,
    packet: PacketView,
    client: LobbyClient,
)
    requires
        net.has_host(),
        peer < net.peers.len(),
        !net.peers[peer as int].is_host,
        clients_differ(net.peers[net.host() as int].clients),
    ensures
        ({
            let after = model::disconnected(net, peer);
            let host = net.host() as int;
            let before = net.peers[peer as int];
            &&& after.peers[peer as int] == (PeerView {
                attachment: Attachment::Disconnected,
                ..before
            })
            &&& after.peers[host].clients.contains(client) == (net.peers[host].clients.contains(
                client,
            ) && client.uuid != before.uuid)
            &&& after.in_flight.contains(packet) == (net.in_flight.contains(packet) && packet.to
                != peer)
            &&& others_stay(net.peers, after.peers, peer as int, host)
            &&& only_peers_change(net, after) && after.next_entity == net.next_entity
        }),
{
    model::lemma_host_found(net.peers);
    let off = model::attached(net, peer as int, Attachment::Disconnected);
    model::lemma_same_hosts(net.peers, off.peers);
    lemma_filtered(net.in_flight, model::clear_of(peer, true, false));
    lemma_without(net.peers[net.host() as int].clients, net.peers[peer as int].uuid);
}

/// A peer that is half open is heard by nobody: what it had sent is lost. It still gets what is on
/// its way to it, it is still a client of the host, and nobody else is concerned.
pub proof fn law_a_half_open_peer_is_not_heard(net: NetworkView, peer: usize, packet: PacketView)
    requires
        peer < net.peers.len(),
    ensures
        ({
            let after = model::half_opened(net, peer);
            &&& after.peers == net.peers.update(
                peer as int,
                PeerView { attachment: Attachment::HalfOpen, ..net.peers[peer as int] },
            )
            &&& after.in_flight.contains(packet) == (net.in_flight.contains(packet) && packet.from
                != peer)
            &&& only_peers_change(net, after) && after.next_entity == net.next_entity
        }),
{
    lemma_filtered(net.in_flight, model::clear_of(peer, false, true));
}

/// A peer that leaves is gone: from the host's clients, from its own lobby, and from the network,
/// with all that was on its way to it or from it. Nobody else is concerned.
pub proof fn law_a_peer_that_left_is_gone(
    net: NetworkView,
    peer: usize,
    packet: PacketView,
    client: LobbyClient,
)
    requires
        net.has_host(),
        peer < net.peers.len(),
        !net.peers[peer as int].is_host,
        clients_differ(net.peers[net.host() as int].clients),
    ensures
        ({
            let after = model::left(net, peer);
            let host = net.host() as int;
            let before = net.peers[peer as int];
            &&& after.peers[peer as int] == (PeerView {
                lobby: None,
                host_uuid: None,
                attachment: Attachment::Left,
                ..before
            })
            &&& after.peers[host].clients.contains(client) == (net.peers[host].clients.contains(
                client,
            ) && client.uuid != before.uuid)
            &&& after.in_flight.contains(packet) == (net.in_flight.contains(packet) && packet.to
                != peer && packet.from != peer)
            &&& others_stay(net.peers, after.peers, peer as int, host)
            &&& only_peers_change(net, after) && after.next_entity == net.next_entity
        }),
{
    model::lemma_host_found(net.peers);
    let off = net.peers.update(
        peer as int,
        PeerView {
            lobby: None,
            host_uuid: None,
            attachment: Attachment::Left,
            ..net.peers[peer as int]
        },
    );
    model::lemma_same_hosts(net.peers, off);
    lemma_filtered(net.in_flight, model::clear_of(peer, true, true));
    lemma_without(net.peers[net.host() as int].clients, net.peers[peer as int].uuid);
}

/// Whether the host has one more client than before, the last: `uuid`, under a name of its own, of
/// whose connection nothing is known yet.
pub open spec fn gains_a_client(
    before: NetworkView,
    after: NetworkView,
    host: int,
    entity: u64,
    uuid: u128,
) -> bool {
    after.peers[host].clients == before.peers[host].clients.push(
        LobbyClient { entity, uuid, rtt: None },
    )
}

/// A peer whose connection comes back sends and receives again. One that had dropped off is a
/// client of the host again, under a new name; one that was half open had never stopped being one.
pub proof fn law_a_peer_comes_back(net: NetworkView, peer: usize)
    requires
        net.has_host(),
        peer < net.peers.len(),
        !net.peers[peer as int].is_host,
        net.next_entity < u64::MAX,
    ensures
        ({
            let after = model::reconnected(net, peer);
            let host = net.host() as int;
            let before = net.peers[peer as int];
            let was_off = before.attachment == Attachment::Disconnected;
            &&& after.peers[peer as int] == (PeerView {
                attachment: Attachment::Connected,
                ..before
            })
            &&& was_off ==> gains_a_client(net, after, host, net.next_entity, before.uuid)
                && after.next_entity == net.next_entity + 1
            &&& !was_off ==> after.peers[host].clients == net.peers[host].clients
                && after.next_entity == net.next_entity
            &&& others_stay(net.peers, after.peers, peer as int, host)
            &&& only_peers_change(net, after) && after.in_flight == net.in_flight
        }),
{
    model::lemma_host_found(net.peers);
    let open = model::attached(net, peer as int, Attachment::Connected);
    model::lemma_same_hosts(net.peers, open.peers);
}

/// A pending peer whose join is finished is connected, in the lobby it was joining, which is
/// pending no more; and the host has a client for it.
pub proof fn law_a_finished_join_makes_a_client(net: NetworkView, peer: usize)
    requires
        net.has_host(),
        peer < net.peers.len(),
        !net.peers[peer as int].is_host,
        net.peers[peer as int].lobby is Some,
        net.next_entity < u64::MAX,
    ensures
        ({
            let after = model::promoted(net, peer);
            let host = net.host() as int;
            let before = net.peers[peer as int];
            let now = after.peers[peer as int];
            &&& now == (PeerView { attachment: Attachment::Connected, lobby: now.lobby, ..before })
            &&& now.lobby == Some(PeerLobby { pending: false, ..before.lobby->0 })
            &&& gains_a_client(net, after, host, net.next_entity, before.uuid)
            &&& after.next_entity == net.next_entity + 1
            &&& others_stay(net.peers, after.peers, peer as int, host)
            &&& only_peers_change(net, after) && after.in_flight == net.in_flight
        }),
{
    model::lemma_host_found(net.peers);
    let before = net.peers[peer as int];
    let joined = net.peers.update(
        peer as int,
        PeerView {
            lobby: Some(PeerLobby { pending: false, ..before.lobby->0 }),
            attachment: Attachment::Connected,
            ..before
        },
    );
    model::lemma_same_hosts(net.peers, joined);
}

/// A peer that comes back after it left is connected to whoever hosts, in a new lobby that is not
/// pending, and is a new client of the host: neither name was given out before.
pub proof fn law_a_peer_that_rejoins_starts_afresh(net: NetworkView, peer: usize)
    requires
        net.has_host(),
        peer < net.peers.len(),
        !net.peers[peer as int].is_host,
        net.next_entity + 1 < u64::MAX,
    ensures
        ({
            let after = model::rejoined(net, peer);
            let host = net.host() as int;
            let before = net.peers[peer as int];
            &&& after.peers[peer as int] == (PeerView {
                attachment: Attachment::Connected,
                lobby: Some(PeerLobby { entity: net.next_entity, pending: false, rtt: None }),
                host_uuid: Some(net.peers[host].uuid),
                ..before
            })
            &&& gains_a_client(net, after, host, (net.next_entity + 1) as u64, before.uuid)
            &&& after.next_entity == net.next_entity + 2
            &&& others_stay(net.peers, after.peers, peer as int, host)
            &&& only_peers_change(net, after) && after.in_flight == net.in_flight
        }),
{
    model::lemma_host_found(net.peers);
    let back = net.peers.update(
        peer as int,
        PeerView {
            lobby: Some(PeerLobby { entity: net.next_entity, pending: false, rtt: None }),
            host_uuid: Some(net.peers[net.host() as int].uuid),
            attachment: Attachment::Connected,
            ..net.peers[peer as int]
        },
    );
    model::lemma_same_hosts(net.peers, back);
}

/// A peer that is added comes last, in a lobby of its own under a new name, with nothing sent to it
/// or by it and no id of its own; everybody else stays as they were.
pub proof fn law_an_added_peer_comes_last(
    net: NetworkView,
    uuid: u128,
    is_host: bool,
    pending: bool,
    host_uuid: u128,
    attachment: Attachment,
)
    requires
        net.next_entity < u64::MAX,
    ensures
        ({
            let after = model::with_peer(net, uuid, is_host, pending, host_uuid, attachment);
            let added = after.peers.last();
            &&& after.peers.len() == net.peers.len() + 1
            &&& after.peers.drop_last() == net.peers
            &&& added.uuid == uuid && added.is_host == is_host && added.attachment == attachment
            &&& added.host_uuid == Some(host_uuid) && added.local_id is None
            &&& added.lobby == Some(PeerLobby { entity: net.next_entity, pending, rtt: None })
            &&& added.clients.len() == 0 && added.outbox.len() == 0 && added.inbox.len() == 0
            &&& after.next_entity == net.next_entity + 1
            &&& only_peers_change(net, after) && after.in_flight == net.in_flight
        }),
{
    let after = model::with_peer(net, uuid, is_host, pending, host_uuid, attachment);
    assert(after.peers.drop_last() =~= net.peers);
}

/// A client that the host is given is its last, and is what the host is given and nothing else.
pub proof fn law_a_host_gains_one_client(net: NetworkView, uuid: u128)
    requires
        net.has_host(),
        net.next_entity < u64::MAX,
    ensures
        ({
            let after = model::with_client(net, uuid);
            let host = net.host() as int;
            &&& net.peers[host].is_host
            &&& gains_a_client(net, after, host, net.next_entity, uuid)
            &&& others_stay(net.peers, after.peers, host, host)
            &&& after.next_entity == net.next_entity + 1
            &&& only_peers_change(net, after) && after.in_flight == net.in_flight
        }),
{
    model::lemma_host_found(net.peers);
}

/// A new host is connected, hosts a lobby of its own under a new name, and has no clients yet;
/// everybody else has left, knows no host and is in no lobby. What peers have not read or sent yet
/// stays theirs; nothing is in flight, no order is owed, nobody is known as a client any more; and
/// the links, the clock, the generators and the records go on.
pub proof fn law_a_new_host_starts_afresh(net: NetworkView, new_host: usize, i: int)
    requires
        new_host < net.peers.len() <= usize::MAX,
        net.next_entity < u64::MAX,
        0 <= i < net.peers.len(),
    ensures
        ({
            let after = model::rehosted(net, new_host);
            let before = net.peers[i];
            let now = after.peers[i];
            let mine = i == new_host;
            &&& after.peers.len() == net.peers.len()
            &&& now.uuid == before.uuid && now.local_id == before.local_id
            &&& now.outbox == before.outbox && now.inbox == before.inbox
            &&& now.clients.len() == 0
            &&& now.is_host == mine
            &&& now.attachment == if mine {
                Attachment::Connected
            } else {
                Attachment::Left
            }
            &&& now.host_uuid == if mine {
                Some(before.uuid)
            } else {
                None
            }
            &&& now.lobby == if mine {
                Some(PeerLobby { entity: net.next_entity, pending: false, rtt: None })
            } else {
                None
            }
            &&& after.in_flight.len() == 0
            &&& forall|key: u128| !#[trigger] after.last_reliable_delivery.contains_key(key)
            &&& forall|key: u128| !#[trigger] after.next_seq.contains_key(key)
            &&& forall|entity: u64| !#[trigger] after.known_clients.contains_key(entity)
            &&& after.next_entity == net.next_entity + 1
            &&& after.links == net.links && after.default_link == net.default_link
            &&& after.frame == net.frame && after.frame_duration == net.frame_duration
            &&& after.link_rng == net.link_rng && after.content_rng == net.content_rng
            &&& after.trace == net.trace && after.sent == net.sent
            &&& after.pending_drops == net.pending_drops
            &&& after.pending_corruptions == net.pending_corruptions
        }),
{
}

/// Who sends and who receives: both while pending or connected, a half-open peer only receives,
/// and neither once it is off the network.
pub proof fn law_who_sends_and_who_receives(attachment: Attachment)
    ensures
        attachment.sends() == match attachment {
            Attachment::Pending | Attachment::Connected => true,
            _ => false,
        },
        attachment.receives() == match attachment {
            Attachment::Disconnected | Attachment::Left => false,
            _ => true,
        },
{
}

/// What each rewrite does to a packet: one cuts it off, one flips bits of one byte, which flipping
/// them again undoes, one adds to its end, and one puts something else in its place. Cutting off
/// more than there is, or flipping beyond its end, does nothing.
pub proof fn law_rewrites_do_what_they_say(
    bytes: Seq<u8>,
    length: usize,
    at: usize,
    mask: u8,
    more: Seq<u8>,
    i: int,
)
    ensures
        ({
            let cut = CorruptionView::Truncate(length).applied(bytes);
            let flip = CorruptionView::Flip { at, mask };
            let flipped = flip.applied(bytes);
            let longer = CorruptionView::Append(more).applied(bytes);
            &&& length >= bytes.len() ==> cut == bytes
            &&& length < bytes.len() ==> cut.len() == length && cut.is_prefix_of(bytes)
            &&& flipped.len() == bytes.len()
            &&& 0 <= i < bytes.len() && i != at ==> flipped[i] == bytes[i]
            &&& at < bytes.len() ==> flipped[at as int] == bytes[at as int] ^ mask
            &&& at < bytes.len() && mask != 0 ==> flipped[at as int] != bytes[at as int]
            &&& flip.applied(flipped) == bytes
            &&& longer.len() == bytes.len() + more.len()
            &&& bytes.is_prefix_of(longer)
            &&& longer.skip(bytes.len() as int) == more
            &&& CorruptionView::Replace(more).applied(bytes) == more
        }),
{
    let flip = CorruptionView::Flip { at, mask };
    if at < bytes.len() {
        let byte = bytes[at as int];
        assert((byte ^ mask) ^ mask == byte) by (bit_vector);
        assert(mask != 0 ==> byte ^ mask != byte) by (bit_vector);
    }
    assert(flip.applied(flip.applied(bytes)) =~= bytes);
    let longer = CorruptionView::Append(more).applied(bytes);
    assert(longer.skip(bytes.len() as int) =~= more);
}

/// Whether a packet is the one just before `seq` in a link's send order: an unreliable one, with no
/// other unreliable one of that link between.
pub open spec fn is_just_before(
    in_flight: Seq<PacketView>,
    i: int,
    from: usize,
    to: usize,
    seq: u64,
) -> bool {
    &&& 0 <= i < in_flight.len()
    &&& !in_flight[i].reliable && in_flight[i].from == from && in_flight[i].to == to
    &&& in_flight[i].seq < seq
    &&& forall|j: int|
        0 <= j < in_flight.len() && !(#[trigger] in_flight[j]).reliable && in_flight[j].from == from
            && in_flight[j].to == to && in_flight[j].seq < seq ==> in_flight[j].seq
            <= in_flight[i].seq
}

proof fn lemma_overtaken(in_flight: Seq<PacketView>, n: nat, from: usize, to: usize, seq: u64)
    requires
        n <= in_flight.len(),
    ensures
        match model::overtaken(in_flight, n, from, to, seq) {
            Some(i) => is_just_before(in_flight.take(n as int), i, from, to, seq),
            None => forall|j: int|
                0 <= j < n && !(#[trigger] in_flight[j]).reliable && in_flight[j].from == from
                    && in_flight[j].to == to ==> in_flight[j].seq >= seq,
        },
    decreases n,
{
    if n > 0 {
        lemma_overtaken(in_flight, (n - 1) as nat, from, to, seq);
        let shorter = in_flight.take(n - 1);
        let longer = in_flight.take(n as int);
        assert(forall|j: int| 0 <= j < n - 1 ==> #[trigger] longer[j] == shorter[j]);
        assert(longer[n - 1] == in_flight[n - 1]);
        assert(forall|j: int| 0 <= j < n ==> #[trigger] longer[j] == in_flight[j]);
    }
}

/// A packet that overtakes takes the place of the one just before it on its link, in the send order
/// and in the frame it arrives on, and that one takes its place; nothing else moves. It does so only
/// on a link that reorders, when that happens, and if there is one before it.
pub proof fn law_an_overtaking_packet_swaps_places(
    in_flight: Seq<PacketView>,
    rng: SeededRng,
    link: Link,
    from: usize,
    to: usize,
    seq: u64,
    at: u64,
)
    ensures
        ({
            let placed = model::overtaking(in_flight, rng, link, from, to, seq, at);
            let happens = link.reorder.0 > 0 && rng.next_happens(link.reorder);
            let none = forall|j: int|
                0 <= j < in_flight.len() && !(#[trigger] in_flight[j]).reliable
                    && in_flight[j].from == from && in_flight[j].to == to ==> in_flight[j].seq
                    >= seq;
            &&& placed.in_flight.len() == in_flight.len()
            &&& !happens || none ==> placed.seq == seq && placed.at == at && placed.in_flight
                == in_flight
            &&& happens && !none ==> exists|i: int|
                {
                    &&& #[trigger] is_just_before(in_flight, i, from, to, seq)
                    &&& placed.seq == in_flight[i].seq
                    &&& placed.at == in_flight[i].deliver_at_frame
                    &&& placed.in_flight == in_flight.update(
                        i,
                        PacketView { seq, deliver_at_frame: at, ..in_flight[i] },
                    )
                }
            &&& link.reorder.0 == 0 ==> placed.rng == rng
            &&& link.reorder.0 > 0 ==> placed.rng == rng.after()
        }),
{
    lemma_overtaken(in_flight, in_flight.len(), from, to, seq);
    assert(in_flight.take(in_flight.len() as int) =~= in_flight);
    let found = model::overtaken(in_flight, in_flight.len(), from, to, seq);
    if let Some(i) = found {
        assert(is_just_before(in_flight, i, from, to, seq));
    }
}

/// A duration is counted in whole frames, to the nearest, halves up; no time is no frames, and any
/// time is endlessly many where a frame lasts none.
pub proof fn law_durations_are_rounded_to_frames(duration: int, frame_duration: int)
    requires
        duration >= 0,
        frame_duration >= 0,
    ensures
        frame_duration > 0 ==> {
            let frames = link::frames_in(duration, frame_duration);
            &&& 2 * (frames * frame_duration) <= 2 * duration + frame_duration
            &&& 2 * (frames * frame_duration) > 2 * duration - frame_duration
        },
        frame_duration == 0 ==> link::frames_in(duration, 0) == if duration == 0 {
            0
        } else {
            u64::MAX as int
        },
{
    if frame_duration > 0 {
        let whole = 2 * duration + frame_duration;
        let unit = 2 * frame_duration;
        let frames = whole / unit;
        vstd::arithmetic::div_mod::lemma_fundamental_div_mod(whole, unit);
        vstd::arithmetic::div_mod::lemma_mod_bound(whole, unit);
        assert(unit * frames == 2 * (frames * frame_duration)) by (nonlinear_arith)
            requires
                unit == 2 * frame_duration,
        ;
    }
}

/// What is drawn below a bound is below it, and costs a draw; below nothing there is nothing, at no
/// cost. No two states are followed by the same one, and no two seeds lead to the same content.
pub proof fn law_draws_replay(one: SeededRng, other: SeededRng, bound: u64)
    ensures
        bound > 0 ==> one.next_below(bound) < bound && one.after_below(bound) == one.after(),
        bound == 0 ==> one.next_below(bound) == 0 && one.after_below(bound) == one,
        one.after() == other.after() ==> one == other,
        rng::content_seed(one.0) == rng::content_seed(other.0) ==> one == other,
        rng::content_seed(one.0) ^ rng::content_seed(0) == (one.0 << 32) | (one.0 >> 32),
        one.next_unit() < 16_777_216,
        one.0 != 0 ==> SeededRng::seeded(one.0) == one,
        SeededRng::seeded(0).0 != 0,
{
    let (a, b) = (one.0, other.0);
    let (c, d) = (a ^ (a << 13), b ^ (b << 13));
    let (e, f) = (c ^ (c >> 7), d ^ (d >> 7));
    assert(a ^ (a << 13) == b ^ (b << 13) ==> a == b) by (bit_vector);
    assert(c ^ (c >> 7) == d ^ (d >> 7) ==> c == d) by (bit_vector);
    assert(e ^ (e << 17) == f ^ (f << 17) ==> e == f) by (bit_vector);
    let s = rng::CONTENT_STREAM;
    assert(((a << 32) | (a >> 32)) ^ s == ((b << 32) | (b >> 32)) ^ s ==> a == b) by (bit_vector);
    assert((((a << 32) | (a >> 32)) ^ s) ^ (((0u64 << 32) | (0u64 >> 32)) ^ s) == (a << 32) | (a
        >> 32)) by (bit_vector);
    let x = one.after().0;
    assert(x >> 40 < 16_777_216) by (bit_vector);
}

/// What is to be sent is what every peer has to send, peer after peer and in the order each sent
/// it, as it was sent; what is for nobody is left out.
pub proof fn law_outboxes_are_emptied_in_order(net: NetworkView, from: usize, n: nat)
    requires
        from < net.peers.len(),
        n < net.peers[from as int].outbox.len(),
    ensures
        ({
            let packet = net.peers[from as int].outbox[n as int];
            let before = model::resolved_outbox(net, from, n);
            let after = model::resolved_outbox(net, from, n + 1);
            match model::destination(net, from, packet.entity) {
                Some(to) => {
                    &&& after.len() == before.len() + 1
                    &&& after.drop_last() == before
                    &&& after.last().from == from && after.last().to == to
                    &&& after.last().bytes == packet.bytes && after.last().mode == packet.mode
                },
                None => after == before,
            }
        }),
        model::resolved_outbox(net, from, 0).len() == 0,
        model::resolved(net, 0).len() == 0,
        model::resolved(net, (from + 1) as nat) == model::resolved(net, from as nat)
            + model::resolved_outbox(net, from, net.peers[from as int].outbox.len()),
{
    let packet = net.peers[from as int].outbox[n as int];
    if model::destination(net, from, packet.entity) is Some {
        assert(model::resolved_outbox(net, from, n + 1).drop_last() =~= model::resolved_outbox(
            net,
            from,
            n,
        ));
    }
}

/// Once all is collected, nobody has anything left to send; and what was to be sent is handed over
/// in turn.
pub proof fn law_nothing_is_left_to_send(net: NetworkView, i: int)
    requires
        0 <= i < net.peers.len(),
    ensures
        ({
            let ready = model::drained(net);
            &&& ready.peers.len() == net.peers.len()
            &&& ready.peers[i].outbox.len() == 0
            &&& ready.peers[i] == (PeerView { outbox: Seq::empty(), ..net.peers[i] })
            &&& ready.in_flight == net.in_flight
            &&& model::collected(net) == model::all_scheduled(
                ready,
                model::resolved(model::acquainted(net), net.peers.len()),
            )
        }),
{
}

/// Packets are handed to their links in turn, each over the network as it is once those before it
/// were.
pub proof fn law_packets_are_handed_over_in_turn(
    net: NetworkView,
    first: Seq<model::ResolvedView>,
    next: model::ResolvedView,
)
    ensures
        model::all_scheduled(net, first.push(next)) == model::scheduled(
            model::all_scheduled(net, first),
            next.from,
            next.to,
            next.bytes,
            next.mode,
        ),
        model::all_scheduled(net, Seq::empty()) == net,
{
    assert(first.push(next).drop_last() =~= first);
}

/// The host's clients stay known by their names for good: each that it has now is, the last of a
/// name counts, and nobody is forgotten.
pub proof fn law_clients_stay_known(known: Map<u64, u128>, clients: Seq<LobbyClient>, i: int)
    requires
        0 <= i < clients.len(),
        forall|j: int| i < j < clients.len() ==> (#[trigger] clients[j]).entity
            != clients[i].entity,
    ensures
        ({
            let after = model::with_clients(known, clients);
            &&& after.contains_key(clients[i].entity)
            &&& after[clients[i].entity] == clients[i].uuid
            &&& forall|entity: u64| #[trigger] known.contains_key(entity) ==> after.contains_key(
                entity,
            )
        }),
    decreases clients.len(),
{
    let earlier = clients.drop_last();
    if i < clients.len() - 1 {
        assert(earlier[i] == clients[i]);
        assert(clients[clients.len() - 1].entity != clients[i].entity);
        assert forall|j: int| i < j < earlier.len() implies (#[trigger] earlier[j]).entity
            != earlier[i].entity by {
            assert(earlier[j] == clients[j]);
        }
        law_clients_stay_known(known, earlier, i);
    } else {
        lemma_known_stay(known, earlier);
    }
}

proof fn lemma_known_stay(known: Map<u64, u128>, clients: Seq<LobbyClient>)
    ensures
        forall|entity: u64| #[trigger]
            known.contains_key(entity) ==> model::with_clients(known, clients).contains_key(entity),
    decreases clients.len(),
{
    if clients.len() > 0 {
        lemma_known_stay(known, clients.drop_last());
    }
}

/// A step is one frame: the clock goes on by one, what is due by then is delivered, peers are told
/// of their connections, and only then is what they have to send collected. So many steps are as
/// many frames, one after the other.
pub proof fn law_a_step_is_one_frame(net: NetworkView, frames: nat)
    requires
        net.frame < u64::MAX,
    ensures
        ({
            let later = NetworkView { frame: (net.frame + 1) as u64, ..net };
            model::stepped(net) == model::collected(model::published(model::delivered(later)))
        }),
        model::ran(net, 0) == net,
        model::ran(net, frames + 1) == model::stepped(model::ran(net, frames)),
        model::advanced(net, 0) == model::published(model::delivered(net)),
{
}

/// A seed starts both generators, the links' with the seed itself, and changes nothing else; what
/// the links draw is then not what the content draws.
pub proof fn law_a_seed_starts_both_generators(net: NetworkView, seed: u64)
    ensures
        ({
            let after = model::seeded(net, seed);
            &&& seed != 0 ==> after.link_rng.0 == seed
            &&& after == (NetworkView {
                link_rng: after.link_rng,
                content_rng: after.content_rng,
                ..net
            })
            &&& after.content_rng == SeededRng::seeded(rng::content_seed(seed))
            &&& seed != 0 ==> after.content_rng != after.link_rng
        }),
{
    assert(((seed << 32) | (seed >> 32)) ^ 0x9e37_79b9_7f4a_7c15u64 != seed) by (bit_vector);
    assert(rng::ZERO_SEED != 0);
    if rng::content_seed(seed) == 0 && seed == rng::ZERO_SEED {
        assert(((0x2545_f491_4f6c_dd1du64 << 32) | (0x2545_f491_4f6c_dd1du64 >> 32))
            ^ 0x9e37_79b9_7f4a_7c15u64 != 0) by (bit_vector);
    }
}

/// What a peer sends waits behind what it sent before, and nothing else changes.
pub proof fn law_what_is_sent_waits_its_turn(
    net: NetworkView,
    peer: usize,
    entity: u64,
    bytes: Seq<u8>,
    mode: SendMode,
)
    requires
        peer < net.peers.len(),
    ensures
        ({
            let after = model::sending(net, peer, entity, bytes, mode);
            let outbox = after.peers[peer as int].outbox;
            &&& outbox.drop_last() == net.peers[peer as int].outbox
            &&& outbox.last().entity == entity && outbox.last().bytes == bytes
                && outbox.last().mode == mode
            &&& after == (NetworkView {
                peers: net.peers.update(
                    peer as int,
                    PeerView { outbox, ..net.peers[peer as int] },
                ),
                ..net
            })
        }),
{
    let outbox = model::sending(net, peer, entity, bytes, mode).peers[peer as int].outbox;
    assert(outbox.drop_last() =~= net.peers[peer as int].outbox);
}

/// A link is told apart by its direction: one that was set is used for packets that way, and the
/// default link for every direction that was not.
pub proof fn law_a_set_link_is_used(net: NetworkView, from: usize, to: usize, link: Link)
    ensures
        ({
            let set = NetworkView {
                links: net.links.insert(model::pair_key(from, to), link),
                ..net
            };
            &&& set.link_between(from, to) == link
            &&& from != to ==> set.link_between(to, from) == net.link_between(to, from)
            &&& !net.links.contains_key(model::pair_key(from, to)) ==> net.link_between(from, to)
                == net.default_link
        }),
{
    model::lemma_pair_key_is_injective(from, to, to, from);
}

/// A link that is perfect takes no time and loses, repeats and reorders nothing, of any size.
pub proof fn law_a_perfect_link_does_nothing()
    ensures
        ({
            let link = link::perfect_link();
            &&& link.delay == 0 && link.jitter == 0
            &&& link.loss.0 == 0 && link.duplicate.0 == 0 && link.reorder.0 == 0
            &&& link.max_message_size is None
        }),
{
}

/// Whether a probability is the least that is no smaller than so many thousandths.
pub open spec fn is_thousandths(probability: rng::Probability, thousandths: int) -> bool {
    &&& probability.0 * 1_000 >= thousandths * 16_777_216
    &&& (probability.0 - 1) * 1_000 < thousandths * 16_777_216
}

/// What the links by name are like, in milliseconds and thousandths: each loses something, only bad
/// wifi repeats anything, and none reorders or limits a packet's size.
pub proof fn law_links_are_what_they_are_called()
    ensures
        ({
            let ms: int = 1_000_000;
            let (cable, mobile) = (link::cable_link(), link::four_g_link());
            let (wifi, satellite) = (link::bad_wifi_link(), link::satellite_link());
            &&& cable.delay == 15 * ms && cable.jitter == 3 * ms && is_thousandths(cable.loss, 1)
            &&& mobile.delay == 40 * ms && mobile.jitter == 15 * ms && is_thousandths(
                mobile.loss,
                5,
            )
            &&& wifi.delay == 60 * ms && wifi.jitter == 40 * ms && is_thousandths(wifi.loss, 20)
            &&& is_thousandths(wifi.duplicate, 10)
            &&& satellite.delay == 300 * ms && satellite.jitter == 20 * ms && is_thousandths(
                satellite.loss,
                10,
            )
            &&& cable.duplicate.0 == 0 && mobile.duplicate.0 == 0 && satellite.duplicate.0 == 0
            &&& cable.reorder.0 == 0 && mobile.reorder.0 == 0
            &&& wifi.reorder.0 == 0 && satellite.reorder.0 == 0
            &&& cable.max_message_size is None && mobile.max_message_size is None
            &&& wifi.max_message_size is None && satellite.max_message_size is None
        }),
{
}

/// Recording goes on while it is on, starts empty where it was off, and forgets what was recorded
/// when it is switched off. A record that is taken starts anew. Nothing else changes.
pub proof fn law_a_record_is_kept_while_it_is_on(net: NetworkView, on: bool)
    ensures
        ({
            let after = model::tracing(net, on);
            &&& after == (NetworkView { trace: after.trace, ..net })
            &&& after.trace is Some == on
            &&& on && net.trace is Some ==> after.trace == net.trace
            &&& on && net.trace is None ==> (after.trace->0).len() == 0
        }),
        ({
            let after = model::trace_taken(net);
            &&& after == (NetworkView { trace: after.trace, ..net })
            &&& after.trace is Some == net.trace is Some
            &&& after.trace is Some ==> (after.trace->0).len() == 0
        }),
{
}

/// Packets that are to be dropped add up, in their own direction and no other.
pub proof fn law_drops_add_up(
    net: NetworkView,
    from: usize,
    to: usize,
    count: usize,
    other_from: usize,
    other_to: usize,
)
    requires
        net.drops_of(model::pair_key(from, to)) + count <= usize::MAX,
    ensures
        ({
            let after = model::dropping(net, from, to, count);
            let key = model::pair_key(from, to);
            let other = model::pair_key(other_from, other_to);
            &&& after.drops_of(key) == net.drops_of(key) + count
            &&& (from, to) != (other_from, other_to) ==> after.drops_of(other) == net.drops_of(
                other,
            )
            &&& after == (NetworkView { pending_drops: after.pending_drops, ..net })
        }),
{
    model::lemma_pair_key_is_injective(from, to, other_from, other_to);
}

/// What is slipped in arrives on the next frame, reliably, as if its sender had sent it: the first
/// peer of that name, or the recipient itself where there is none. It comes last in the send order
/// of that direction; no link, record or count knows of it.
pub proof fn law_what_is_slipped_in_arrives_next(
    net: NetworkView,
    to: usize,
    sender: u128,
    bytes: Seq<u8>,
    i: int,
)
    requires
        to < net.peers.len() <= usize::MAX,
        net.frame < u64::MAX,
        forall|key: u128| #[trigger] net.seq_of(key) < u64::MAX,
    ensures
        ({
            let after = model::slipped_in(net, to, sender, bytes);
            let packet = after.in_flight.last();
            let first = 0 <= i < net.peers.len() && net.peers[i].uuid == sender && forall|j: int|
                0 <= j < i ==> (#[trigger] net.peers[j]).uuid != sender;
            let nobody = forall|j: int|
                0 <= j < net.peers.len() ==> (#[trigger] net.peers[j]).uuid != sender;
            &&& after.in_flight.drop_last() == net.in_flight
            &&& packet.to == to && packet.from_uuid == sender && packet.bytes == bytes
            &&& packet.reliable && packet.deliver_at_frame == net.frame + 1
            &&& first ==> packet.from == i
            &&& nobody ==> packet.from == to
            &&& packet.seq == net.seq_of(model::pair_key(packet.from, to)) + 1
            &&& after.seq_of(model::pair_key(packet.from, to)) == packet.seq
            &&& after == (NetworkView {
                in_flight: after.in_flight,
                next_seq: after.next_seq,
                ..net
            })
        }),
{
    let after = model::slipped_in(net, to, sender, bytes);
    assert(after.in_flight.drop_last() =~= net.in_flight);
    let position = model::uuid_position(net.peers, sender);
    lemma_uuid_found(net.peers, sender);
    let from = if position < net.peers.len() {
        position as usize
    } else {
        to
    };
    assert(net.seq_of(model::pair_key(from, to)) < u64::MAX);
}

proof fn lemma_uuid_found(peers: Seq<PeerView>, uuid: u128)
    ensures
        0 <= model::uuid_position(peers, uuid) <= peers.len(),
        model::uuid_position(peers, uuid) < peers.len() ==> peers[model::uuid_position(
            peers,
            uuid,
        )].uuid == uuid,
        forall|i: int|
            0 <= i < model::uuid_position(peers, uuid) ==> (#[trigger] peers[i]).uuid != uuid,
    decreases peers.len(),
{
    if peers.len() > 0 && peers[0].uuid != uuid {
        let later = peers.drop_first();
        lemma_uuid_found(later, uuid);
        assert forall|i: int| 0 <= i < model::uuid_position(peers, uuid) implies (
        #[trigger] peers[i]).uuid != uuid by {
            if i > 0 {
                assert(later[i - 1] == peers[i]);
            }
        }
    }
}

/// What a peer has read is delivered no more, and what others have not read stays.
pub proof fn law_what_is_read_is_gone(net: NetworkView, peer: usize, other: int)
    requires
        peer < net.peers.len(),
        0 <= other < net.peers.len(),
    ensures
        ({
            let after = model::inbox_taken(net, peer);
            &&& after.peers[peer as int].inbox.len() == 0
            &&& after.peers[peer as int] == (PeerView {
                inbox: Seq::empty(),
                ..net.peers[peer as int]
            })
            &&& other != peer ==> after.peers[other] == net.peers[other]
            &&& after == (NetworkView { peers: after.peers, ..net })
        }),
{
}

/// Whether `needle` stands in `bytes` from `at` on, byte for byte.
pub open spec fn is_at(bytes: Seq<u8>, needle: Seq<u8>, at: int) -> bool {
    &&& 0 <= at <= bytes.len() - needle.len()
    &&& forall|k: int| 0 <= k < needle.len() ==> #[trigger] needle[k] == bytes[at + k]
}

/// What occurs in a packet stands somewhere in it, byte for byte; nothing occurs in none.
pub proof fn law_what_occurs_stands_somewhere(bytes: Seq<u8>, needle: Seq<u8>)
    ensures
        packet::occurs_in(bytes, needle) == (needle.len() > 0 && exists|at: int|
            is_at(bytes, needle, at)),
{
    assert forall|at: int| packet::stands_at(bytes, needle, at) == is_at(bytes, needle, at) by {
        if 0 <= at <= bytes.len() - needle.len() {
            let part = bytes.subrange(at, at + needle.len());
            if part == needle {
                assert forall|k: int| 0 <= k < needle.len() implies #[trigger] needle[k]
                    == bytes[at + k] by {
                    assert(part[k] == bytes[at + k]);
                }
            }
            if is_at(bytes, needle, at) {
                assert(part =~= needle);
            }
        }
    }
    if exists|at: int| packet::stands_at(bytes, needle, at) {
        let at = choose|at: int| packet::stands_at(bytes, needle, at);
        assert(is_at(bytes, needle, at));
    }
    if exists|at: int| is_at(bytes, needle, at) {
        let at = choose|at: int| is_at(bytes, needle, at);
        assert(packet::stands_at(bytes, needle, at));
    }
}

} // verus!
