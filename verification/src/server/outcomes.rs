//! What every operation leaves behind, and who hears what of it.

use vstd::prelude::*;

use super::draws;
use super::laws;
use super::limiter::Verdict;
use super::lobby;
use super::lobby::Departure;
use super::state;
use super::state::{ConnectionView, LobbyView, OutgoingView, ServerView};
use super::ws_handler;
use super::ws_handler::{Frame, Session, Step};
use crate::protocol::{
    ClientMessage, LobbyInfoView, ServerMessage, ServerMessageView, CAPABILITY_HOST_MIGRATION,
};

verus! {

/// What `uuid` is sent by the messages of `queue`, in order.
pub open spec fn sent_to(queue: Seq<OutgoingView>, uuid: u128) -> Seq<ServerMessageView>
    decreases queue.len(),
{
    if queue.len() == 0 {
        Seq::empty()
    } else {
        let earlier = sent_to(queue.drop_last(), uuid);
        if queue.last().to == uuid {
            earlier.push(queue.last().message)
        } else {
            earlier
        }
    }
}

/// Whether `uuid` hears exactly `messages` of what turned `before` into `after`, in this order and
/// behind what it was owed already.
pub open spec fn hears(
    before: ServerView,
    after: ServerView,
    uuid: u128,
    messages: Seq<ServerMessageView>,
) -> bool {
    sent_to(after.outbox, uuid) == sent_to(before.outbox, uuid) + messages
}

/// Whether `uuid` hears nothing of what turned `before` into `after`.
pub open spec fn hears_nothing(before: ServerView, after: ServerView, uuid: u128) -> bool {
    sent_to(after.outbox, uuid) == sent_to(before.outbox, uuid)
}

/// Whether `uuid` is connected and understands host migration.
pub open spec fn migrates(server: ServerView, uuid: u128) -> bool {
    &&& server.connections.dom().contains(uuid)
    &&& server.connections[uuid].capabilities & CAPABILITY_HOST_MIGRATION
        == CAPABILITY_HOST_MIGRATION
}

/// Whether `one` stands before `other` in `list`.
pub open spec fn comes_before(list: Seq<u128>, one: u128, other: u128) -> bool {
    exists|a: int, b: int|
        0 <= a < b < list.len() && #[trigger] list[a] == one && #[trigger] list[b] == other
}

/// Whether the members of `now` are those of `before` for whom `stays` holds, in the order they
/// joined.
pub open spec fn stay_in_order(
    before: Seq<u128>,
    now: Seq<u128>,
    stays: spec_fn(u128) -> bool,
) -> bool {
    &&& forall|uuid: u128| #[trigger]
        now.contains(uuid) <==> before.contains(uuid) && stays(uuid)
    &&& forall|i: int, j: int|
        0 <= i < j < now.len() ==> comes_before(before, #[trigger] now[i], #[trigger] now[j])
}

proof fn lemma_queued(server: ServerView, to: u128, message: ServerMessageView, uuid: u128)
    ensures
        sent_to(server.queued(to, message).outbox, uuid) == if to == uuid
            && server.connections.dom().contains(to) {
            sent_to(server.outbox, uuid).push(message)
        } else {
            sent_to(server.outbox, uuid)
        },
{
    if server.connections.dom().contains(to) {
        assert(server.queued(to, message).outbox.drop_last() =~= server.outbox);
    }
}

proof fn lemma_queued_all(
    server: ServerView,
    recipients: Seq<u128>,
    message: ServerMessageView,
    uuid: u128,
)
    requires
        recipients.no_duplicates(),
    ensures
        sent_to(server.queued_all(recipients, message).outbox, uuid) == if recipients.contains(uuid)
            && server.connections.dom().contains(uuid) {
            sent_to(server.outbox, uuid).push(message)
        } else {
            sent_to(server.outbox, uuid)
        },
    decreases recipients.len(),
{
    if recipients.len() > 0 {
        let earlier = recipients.drop_last();
        lemma_queued_all(server, earlier, message, uuid);
        lobby::lemma_queued_all_keeps(server, earlier, message);
        lemma_queued(server.queued_all(earlier, message), recipients.last(), message, uuid);
        lemma_last_of(recipients, uuid);
    }
}

proof fn lemma_last_of(list: Seq<u128>, uuid: u128)
    requires
        list.len() > 0,
        list.no_duplicates(),
    ensures
        list.contains(uuid) == (list.drop_last().contains(uuid) || uuid == list.last()),
        !list.drop_last().contains(list.last()),
{
    let earlier = list.drop_last();
    crate::lists::lemma_pushed(earlier, list.last(), uuid);
    assert(earlier.push(list.last()) =~= list);
    if earlier.contains(list.last()) {
        let i = choose|i: int| 0 <= i < earlier.len() && earlier[i] == list.last();
        assert(list[i] == list[list.len() - 1]);
    }
}

proof fn lemma_disconnected(
    server: ServerView,
    members: Seq<u128>,
    reason: Seq<char>,
    uuid: u128,
)
    requires
        members.no_duplicates(),
    ensures
        sent_to(lobby::disconnected(server, members, reason).outbox, uuid)
            == if members.contains(uuid) && server.connections.dom().contains(uuid) {
            sent_to(server.outbox, uuid).push(ServerMessageView::Disconnected { reason })
        } else {
            sent_to(server.outbox, uuid)
        },
    decreases members.len(),
{
    if members.len() > 0 {
        let earlier = members.drop_last();
        lemma_disconnected(server, earlier, reason, uuid);
        lobby::lemma_disconnected_keeps(server, earlier, reason);
        lemma_queued(
            lobby::disconnected(server, earlier, reason),
            members.last(),
            ServerMessageView::Disconnected { reason },
            uuid,
        );
        lemma_last_of(members, uuid);
    }
}

proof fn lemma_parted(server: ServerView, leaver: u128, peers: Seq<u128>, uuid: u128)
    requires
        server.connections.dom().contains(leaver),
    ensures
        sent_to(lobby::parted(server, leaver, peers).outbox, uuid) == if uuid == leaver {
            sent_to(server.outbox, uuid) + peers.map_values(
                |peer: u128| ServerMessageView::PlayerLeft { player_uuid: peer },
            )
        } else {
            sent_to(server.outbox, uuid)
        },
    decreases peers.len(),
{
    let told = |peer: u128| ServerMessageView::PlayerLeft { player_uuid: peer };
    if peers.len() > 0 {
        let earlier = peers.drop_last();
        lemma_parted(server, leaver, earlier, uuid);
        laws::lemma_parted_keeps(server, leaver, earlier);
        lemma_queued(
            lobby::parted(server, leaver, earlier),
            leaver,
            ServerMessageView::PlayerLeft { player_uuid: peers.last() },
            uuid,
        );
        if uuid == leaver {
            assert(sent_to(lobby::parted(server, leaver, peers).outbox, uuid) =~= sent_to(
                server.outbox,
                uuid,
            ) + peers.map_values(told));
        }
    } else {
        assert(sent_to(server.outbox, uuid) + peers.map_values(told) =~= sent_to(
            server.outbox,
            uuid,
        ));
    }
}

/// What is kept of a list is in the order of the list.
proof fn lemma_filter_in_order(list: Seq<u128>, keep: spec_fn(u128) -> bool, i: int, j: int)
    requires
        0 <= i < j < list.filter(keep).len(),
    ensures
        comes_before(list, list.filter(keep)[i], list.filter(keep)[j]),
    decreases list.len(),
{
    reveal(Seq::filter);
    let earlier = list.drop_last();
    let kept = earlier.filter(keep);
    if j < kept.len() {
        lemma_filter_in_order(earlier, keep, i, j);
        let (a, b) = choose|a: int, b: int|
            0 <= a < b < earlier.len() && #[trigger] earlier[a] == kept[i]
                && #[trigger] earlier[b] == kept[j];
        assert(list[a] == list.filter(keep)[i] && list[b] == list.filter(keep)[j]);
    } else {
        crate::lists::lemma_kept_is_part(earlier, keep, i);
        let a = choose|a: int| 0 <= a < earlier.len() && earlier[a] == kept[i];
        assert(list[a] == list.filter(keep)[i]);
        assert(list[list.len() - 1] == list.filter(keep)[j]);
    }
}

proof fn lemma_filter_stays(
    list: Seq<u128>,
    keep: spec_fn(u128) -> bool,
    stays: spec_fn(u128) -> bool,
)
    requires
        forall|uuid: u128| list.contains(uuid) ==> #[trigger] keep(uuid) == stays(uuid),
    ensures
        stay_in_order(list, list.filter(keep), stays),
{
    let now = list.filter(keep);
    laws::lemma_filtered(list, keep);
    assert forall|i: int, j: int| 0 <= i < j < now.len() implies comes_before(
        list,
        #[trigger] now[i],
        #[trigger] now[j],
    ) by {
        lemma_filter_in_order(list, keep, i, j);
    }
}

/// Filtering twice keeps the order and what passes both.
proof fn lemma_filter_twice_stays(
    list: Seq<u128>,
    first: spec_fn(u128) -> bool,
    second: spec_fn(u128) -> bool,
    stays: spec_fn(u128) -> bool,
)
    requires
        forall|uuid: u128|
            list.contains(uuid) ==> (first(uuid) && second(uuid)) == #[trigger] stays(uuid),
    ensures
        stay_in_order(list, list.filter(first).filter(second), stays),
{
    let mid = list.filter(first);
    let now = mid.filter(second);
    laws::lemma_filtered(list, first);
    laws::lemma_filtered(mid, second);
    assert forall|uuid: u128| #[trigger] now.contains(uuid) <==> list.contains(uuid) && stays(
        uuid,
    ) by {}
    assert forall|i: int, j: int| 0 <= i < j < now.len() implies comes_before(
        list,
        #[trigger] now[i],
        #[trigger] now[j],
    ) by {
        lemma_filter_in_order(mid, second, i, j);
        let (a, b) = choose|a: int, b: int|
            0 <= a < b < mid.len() && #[trigger] mid[a] == now[i] && #[trigger] mid[b] == now[j];
        lemma_filter_in_order(list, first, a, b);
    }
}

/// How long a member of a lobby that survives its host may have to wait, in seconds: what the
/// server waits on a silent connection, as far as it can be said.
pub open spec fn wait_in_seconds(server: ServerView) -> u32 {
    if server.limits.idle_timeout_nanos / 1_000_000_000 <= 0xFFFF_FFFF {
        (server.limits.idle_timeout_nanos / 1_000_000_000) as u32
    } else {
        0xFFFF_FFFF
    }
}

/// A lobby that is created has its host for its only member, under the host's own name, and is as
/// large as was asked for, or as large as a lobby gets where nothing or too much was asked for. The
/// host hears of it, and that it survives its host if the host understands that; nobody else hears
/// anything, and nothing else changes.
pub proof fn law_a_created_lobby_is_its_hosts(
    server: ServerView,
    host_uuid: u128,
    max_players: u32,
    id: u64,
    code: Seq<char>,
)
    requires
        server.connections.dom().contains(host_uuid),
        server.connections[host_uuid].lobby_id is None,
    ensures
        ({
            let after = lobby::created(server, host_uuid, max_players, id, code);
            let made = after.lobbies[id];
            let created = ServerMessageView::LobbyCreated { lobby_id: id, code };
            let survives = ServerMessageView::LobbyMigratable {
                lobby_id: id,
                idle_timeout_secs: wait_in_seconds(server),
            };
            &&& made.lobby_id == id
            &&& made.code == code
            &&& made.host_uuid == host_uuid
            &&& made.members == seq![host_uuid]
            &&& made.host_name == server.connections[host_uuid].display_name
            &&& made.host_migration == migrates(server, host_uuid)
            &&& 1 <= max_players <= 64 ==> made.max_players == max_players
            &&& max_players == 0 || max_players > 64 ==> made.max_players == 64
            &&& after.codes == server.codes.insert(code, id)
            &&& after.lobbies == server.lobbies.insert(id, made)
            &&& after.limits == server.limits
            &&& after.connections == server.connections.insert(
                host_uuid,
                after.connections[host_uuid],
            )
            &&& after.connections[host_uuid].lobby_id == Some(id)
            &&& after.connections[host_uuid].display_name
                == server.connections[host_uuid].display_name
            &&& after.connections[host_uuid].capabilities
                == server.connections[host_uuid].capabilities
            &&& migrates(server, host_uuid) ==> hears(
                server,
                after,
                host_uuid,
                seq![created, survives],
            )
            &&& !migrates(server, host_uuid) ==> hears(server, after, host_uuid, seq![created])
            &&& forall|other: u128|
                other != host_uuid ==> #[trigger] hears_nothing(server, after, other)
        }),
{
    let after = lobby::created(server, host_uuid, max_players, id, code);
    let made = lobby::new_lobby(server, host_uuid, max_players, id, code);
    let created = ServerMessageView::LobbyCreated { lobby_id: id, code };
    let survives = lobby::migratable_message(server, id);
    let placed = ServerView {
        lobbies: server.lobbies.insert(id, made),
        codes: server.codes.insert(code, id),
        ..server
    }.placed(host_uuid, Some(id));
    assert forall|uuid: u128| sent_to(after.outbox, uuid) == if uuid != host_uuid {
        sent_to(server.outbox, uuid)
    } else if migrates(server, host_uuid) {
        sent_to(server.outbox, uuid).push(created).push(survives)
    } else {
        sent_to(server.outbox, uuid).push(created)
    } by {
        lemma_queued(placed, host_uuid, created, uuid);
        lemma_queued(placed.queued(host_uuid, created), host_uuid, survives, uuid);
    }
    let owed = sent_to(server.outbox, host_uuid);
    assert(owed.push(created).push(survives) =~= owed + seq![created, survives]);
    assert(owed.push(created) =~= owed + seq![created]);
    assert(after.connections =~= server.connections.insert(
        host_uuid,
        after.connections[host_uuid],
    ));
    assert forall|other: u128| other != host_uuid implies #[trigger] hears_nothing(
        server,
        after,
        other,
    ) by {}
}

/// Who joins a lobby is the last of its members, and nothing else about the lobby changes. Everyone
/// who was in it hears who joined, once; the joiner hears which lobby it is in, who hosts it and who
/// was in it, and that it survives its host where both it and the host understand that; nobody
/// else hears anything.
pub proof fn law_a_joiner_comes_last(server: ServerView, uuid: u128, id: u64)
    requires
        server.well_formed(),
        server.connections.dom().contains(uuid),
        server.connections[uuid].lobby_id is None,
        server.lobbies.dom().contains(id),
    ensures
        ({
            let before = server.lobbies[id];
            let after = lobby::joined(server, uuid, id);
            let now = after.lobbies[id];
            let welcome = ServerMessageView::LobbyJoined {
                lobby_id: id,
                host_uuid: before.host_uuid,
                existing_members: before.members,
            };
            let survives = ServerMessageView::LobbyMigratable {
                lobby_id: id,
                idle_timeout_secs: wait_in_seconds(server),
            };
            &&& now.members == before.members.push(uuid)
            &&& now == (LobbyView { members: now.members, ..before })
            &&& after.lobbies == server.lobbies.insert(id, now)
            &&& after.codes == server.codes
            &&& after.limits == server.limits
            &&& after.connections == server.connections.insert(uuid, after.connections[uuid])
            &&& after.connections[uuid] == (ConnectionView {
                lobby_id: Some(id),
                ..server.connections[uuid]
            })
            &&& forall|member: u128|
                before.members.contains(member) ==> #[trigger] hears(
                    server,
                    after,
                    member,
                    seq![ServerMessageView::PlayerJoined { player_uuid: uuid }],
                )
            &&& before.host_migration && migrates(server, uuid) ==> hears(
                server,
                after,
                uuid,
                seq![welcome, survives],
            )
            &&& !(before.host_migration && migrates(server, uuid)) ==> hears(
                server,
                after,
                uuid,
                seq![welcome],
            )
            &&& forall|other: u128|
                other != uuid && !before.members.contains(other) ==> #[trigger] hears_nothing(
                    server,
                    after,
                    other,
                )
        }),
{
    let before = server.lobbies[id];
    let after = lobby::joined(server, uuid, id);
    let members = before.members.push(uuid);
    assert(server.lobby_in_order(id));
    assert(!before.members.contains(uuid)) by {
        if before.members.contains(uuid) {
            assert(server.lobby_of(uuid) == Some(id));
        }
    }
    laws::lemma_filter_all(before.members, state::all_but(uuid));
    let told = state::without(members, uuid);
    assert(told == before.members) by {
        reveal(Seq::filter);
        assert(members.drop_last() =~= before.members);
    }
    let placed = ServerView {
        lobbies: server.lobbies.insert(id, LobbyView { members, ..before }),
        ..server
    }.placed(uuid, Some(id));
    let news = ServerMessageView::PlayerJoined { player_uuid: uuid };
    let welcome = ServerMessageView::LobbyJoined {
        lobby_id: id,
        host_uuid: before.host_uuid,
        existing_members: before.members,
    };
    let survives = lobby::migratable_message(server, id);
    let spread = placed.queued_all(told, news);
    lobby::lemma_queued_all_keeps(placed, told, news);
    assert(placed.connections.dom() =~= server.connections.dom());
    assert forall|other: u128| sent_to(after.outbox, other) == if other == uuid {
        if before.host_migration && migrates(server, uuid) {
            sent_to(server.outbox, other).push(welcome).push(survives)
        } else {
            sent_to(server.outbox, other).push(welcome)
        }
    } else if before.members.contains(other) {
        sent_to(server.outbox, other).push(news)
    } else {
        sent_to(server.outbox, other)
    } by {
        lemma_queued_all(placed, told, news, other);
        lemma_queued(spread, uuid, welcome, other);
        lemma_queued(spread.queued(uuid, welcome), uuid, survives, other);
        if before.members.contains(other) {
            assert(server.lobby_of(other) == Some(id));
        }
    }
    let owed = sent_to(server.outbox, uuid);
    assert(owed.push(welcome).push(survives) =~= owed + seq![welcome, survives]);
    assert(owed.push(welcome) =~= owed + seq![welcome]);
    assert forall|member: u128| before.members.contains(member) implies #[trigger] hears(
        server,
        after,
        member,
        seq![news],
    ) by {
        assert(sent_to(server.outbox, member).push(news) =~= sent_to(server.outbox, member) + seq![
            news,
        ]);
    }
    assert forall|other: u128|
        other != uuid && !before.members.contains(other) implies #[trigger] hears_nothing(
        server,
        after,
        other,
    ) by {}
    assert(after.connections =~= server.connections.insert(uuid, after.connections[uuid]));
}

/// Who may join a lobby, and what it is told where it may not: it has to be connected and in no
/// lobby, and the lobby has to be there and have a place.
pub proof fn law_a_join_is_refused_for_cause(server: ServerView, uuid: u128, id: u64)
    requires
        server.well_formed(),
    ensures
        ({
            let refusal = lobby::join_refusal(server, uuid, id);
            let connected = server.connections.dom().contains(uuid);
            let free = connected && server.connections[uuid].lobby_id is None;
            let there = server.lobbies.dom().contains(id);
            let full = there && server.lobbies[id].members.len() == server.lobbies[id].max_players;
            &&& refusal is None <==> free && there && !full
            &&& refusal == Some("Not authenticated"@) <== !connected
            &&& refusal == Some("Already in a lobby"@) <== connected && !free
            &&& refusal == Some("Lobby not found"@) <== free && !there
            &&& refusal == Some("Lobby is full"@) <== free && full
        }),
{
    if server.lobbies.dom().contains(id) {
        assert(server.lobby_in_order(id));
    }
}

/// By its code a lobby is joined as by its id, and a code that leads nowhere joins nothing.
pub proof fn law_a_code_stands_for_its_lobby(server: ServerView, uuid: u128, id: u64)
    requires
        server.well_formed(),
        server.lobbies.dom().contains(id),
    ensures
        server.codes[server.lobbies[id].code] == id,
        lobby::code_refusal(server, uuid, server.lobbies[id].code) == lobby::join_refusal(
            server,
            uuid,
            id,
        ),
        forall|code: Seq<char>|
            !server.codes.dom().contains(code) ==> #[trigger] lobby::code_refusal(
                server,
                uuid,
                code,
            ) == Some("Lobby not found"@),
{
    assert(server.lobby_in_order(id));
}

/// When the host of a lobby that survives it leaves, and somebody is left who understands that, the
/// lobby stays, under its id and code, for everyone else who understands it, in the order they
/// joined; the earliest of them hosts it, under its own name. Each of them hears exactly one thing:
/// who hosted, who hosts now, and who is in the lobby, as it stands. Everyone else who was in it is
/// in no lobby, and hears why; the host hears that each of the others is gone for it; nobody else
/// hears anything.
pub proof fn law_a_lobby_is_handed_on(server: ServerView, host_uuid: u128, id: u64, heir: u128)
    requires
        server.well_formed(),
        server.connections.dom().contains(host_uuid),
        server.connections[host_uuid].lobby_id == Some(id),
        server.lobbies[id].host_uuid == host_uuid,
        server.lobbies[id].host_migration,
        server.lobbies[id].members.contains(heir),
        heir != host_uuid,
        migrates(server, heir),
    ensures
        ({
            let before = server.lobbies[id];
            let after = lobby::departed(server, host_uuid, Departure::Leave);
            let now = after.lobbies[id];
            &&& after.lobbies == server.lobbies.insert(id, now)
            &&& after.codes == server.codes
            &&& after.limits == server.limits
            &&& now.lobby_id == id
            &&& now.code == before.code
            &&& now.max_players == before.max_players
            &&& now.host_migration
            &&& stay_in_order(
                before.members,
                now.members,
                |uuid: u128| uuid != host_uuid && migrates(server, uuid),
            )
            &&& now.members.no_duplicates()
            &&& now.members.contains(heir)
            &&& now.host_uuid == now.members[0]
            &&& now.host_name == server.connections[now.host_uuid].display_name
            &&& forall|uuid: u128|
                now.members.contains(uuid) ==> #[trigger] hears(
                    server,
                    after,
                    uuid,
                    seq![
                        ServerMessageView::HostChanged {
                            lobby_id: id,
                            previous_host: host_uuid,
                            new_host: now.host_uuid,
                            code: before.code,
                            members: now.members,
                        },
                    ],
                ) && after.connections[uuid].lobby_id == Some(id)
            &&& forall|uuid: u128|
                before.members.contains(uuid) && uuid != host_uuid && !now.members.contains(uuid)
                    ==> #[trigger] hears(
                    server,
                    after,
                    uuid,
                    seq![ServerMessageView::Disconnected { reason: "Host left the lobby"@ }],
                ) && after.connections[uuid].lobby_id is None
            &&& after.connections[host_uuid].lobby_id is None
            &&& hears_the_rest_go(server, after, host_uuid, before.members)
            &&& forall|uuid: u128|
                !before.members.contains(uuid) ==> #[trigger] hears_nothing(server, after, uuid)
            &&& others_stay(server, after, before.members)
        }),
{
    let before = server.lobbies[id];
    let after = lobby::departed(server, host_uuid, Departure::Leave);
    let rest = state::without(before.members, host_uuid);
    let gone = server.placed(host_uuid, None);
    assert(server.connection_in_order(host_uuid));
    assert(server.lobby_in_order(id));
    laws::lemma_filtered(before.members, state::all_but(host_uuid));
    laws::lemma_filtered(rest, lobby::can_follow(gone));
    laws::lemma_filtered(rest, lobby::cannot_follow(gone));
    assert(gone.connections.dom() =~= server.connections.dom());
    assert forall|uuid: u128| before.members.contains(uuid) implies #[trigger] migrates(
        server,
        uuid,
    ) == lobby::can_follow(gone)(uuid) && server.connections.dom().contains(uuid) by {
        assert(server.lobby_of(uuid) == Some(id));
    }
    assert(lobby::followers(gone, rest).contains(heir));
    laws::lemma_departed_parts(server, host_uuid, Departure::Leave);
    let now = lobby::inherited(gone, before, rest);
    assert(after.lobbies[id] == now);
    assert(now.members.contains(now.members[0]));
    let stays = |uuid: u128| uuid != host_uuid && migrates(server, uuid);
    lemma_filter_twice_stays(
        before.members,
        state::all_but(host_uuid),
        lobby::can_follow(gone),
        stays,
    );
    let stranded = lobby::stranded(gone, rest);
    let reason = lobby::end_reason(Departure::Leave);
    let released = lobby::disconnected(gone, stranded, reason);
    let ready = ServerView { lobbies: gone.lobbies.insert(id, now), ..released };
    let change = ServerMessageView::HostChanged {
        lobby_id: now.lobby_id,
        previous_host: host_uuid,
        new_host: now.host_uuid,
        code: now.code,
        members: now.members,
    };
    let handed = lobby::handed_over(gone, id, host_uuid, rest);
    lobby::lemma_disconnected_keeps(gone, stranded, reason);
    lobby::lemma_queued_all_keeps(ready, now.members, change);
    assert forall|uuid: u128| sent_to(after.outbox, uuid) == if uuid == host_uuid {
        sent_to(server.outbox, uuid) + rest.map_values(
            |peer: u128| ServerMessageView::PlayerLeft { player_uuid: peer },
        )
    } else if now.members.contains(uuid) {
        sent_to(server.outbox, uuid).push(change)
    } else if before.members.contains(uuid) {
        sent_to(server.outbox, uuid).push(ServerMessageView::Disconnected { reason })
    } else {
        sent_to(server.outbox, uuid)
    } by {
        lemma_disconnected(gone, stranded, reason, uuid);
        lemma_queued_all(ready, now.members, change, uuid);
        lemma_parted(handed, host_uuid, rest, uuid);
        if before.members.contains(uuid) {
            assert(migrates(server, uuid) == lobby::can_follow(gone)(uuid));
        }
    }
    lemma_rest_go(server, after, host_uuid, before.members, rest);
    assert forall|uuid: u128| now.members.contains(uuid) implies #[trigger] hears(
        server,
        after,
        uuid,
        seq![change],
    ) && after.connections[uuid].lobby_id == Some(id) by {
        assert(sent_to(server.outbox, uuid).push(change) =~= sent_to(server.outbox, uuid) + seq![
            change,
        ]);
        assert(server.lobby_of(uuid) == Some(id));
    }
    assert forall|uuid: u128|
        before.members.contains(uuid) && uuid != host_uuid && !now.members.contains(
            uuid,
        ) implies #[trigger] hears(
        server,
        after,
        uuid,
        seq![ServerMessageView::Disconnected { reason: "Host left the lobby"@ }],
    ) && after.connections[uuid].lobby_id is None by {
        let message = ServerMessageView::Disconnected { reason };
        assert(sent_to(server.outbox, uuid).push(message) =~= sent_to(server.outbox, uuid) + seq![
            message,
        ]);
        assert(migrates(server, uuid) == lobby::can_follow(gone)(uuid));
        assert(stranded.contains(uuid));
    }
    assert(!rest.contains(host_uuid));
    assert forall|uuid: u128| !before.members.contains(uuid) implies #[trigger] hears_nothing(
        server,
        after,
        uuid,
    ) by {}
    assert(others_stay(server, after, before.members));
}

/// Whether `leaver` hears that each of `members` but itself is gone for it, in the order they
/// joined, and nothing else.
pub open spec fn hears_the_rest_go(
    before: ServerView,
    after: ServerView,
    leaver: u128,
    members: Seq<u128>,
) -> bool {
    let told = sent_to(after.outbox, leaver).skip(sent_to(before.outbox, leaver).len() as int);
    let gone = told.map_values(
        |message: ServerMessageView| message->PlayerLeft_player_uuid,
    );
    &&& sent_to(before.outbox, leaver).is_prefix_of(sent_to(after.outbox, leaver))
    &&& forall|i: int| 0 <= i < told.len() ==> (#[trigger] told[i]) is PlayerLeft
    &&& gone.no_duplicates()
    &&& stay_in_order(members, gone, |uuid: u128| uuid != leaver)
}

proof fn lemma_rest_go(
    before: ServerView,
    after: ServerView,
    leaver: u128,
    members: Seq<u128>,
    rest: Seq<u128>,
)
    requires
        members.no_duplicates(),
        rest == state::without(members, leaver),
        sent_to(after.outbox, leaver) == sent_to(before.outbox, leaver) + rest.map_values(
            |peer: u128| ServerMessageView::PlayerLeft { player_uuid: peer },
        ),
    ensures
        hears_the_rest_go(before, after, leaver, members),
{
    let owed = sent_to(before.outbox, leaver);
    let news = rest.map_values(
        |peer: u128| ServerMessageView::PlayerLeft { player_uuid: peer },
    );
    let told = sent_to(after.outbox, leaver).skip(owed.len() as int);
    assert(told =~= news);
    assert(told.map_values(|message: ServerMessageView| message->PlayerLeft_player_uuid) =~= rest);
    laws::lemma_filtered(members, state::all_but(leaver));
    lemma_filter_stays(members, state::all_but(leaver), |uuid: u128| uuid != leaver);
    assert(owed.is_prefix_of(sent_to(after.outbox, leaver)));
}

/// Whether everybody who is none of `members` is connected as before.
pub open spec fn others_stay(before: ServerView, after: ServerView, members: Seq<u128>) -> bool {
    &&& after.connections.dom() == before.connections.dom()
    &&& forall|uuid: u128|
        before.connections.dom().contains(uuid) ==> {
            &&& (#[trigger] after.connections[uuid]).display_name
                == before.connections[uuid].display_name
            &&& after.connections[uuid].capabilities == before.connections[uuid].capabilities
            &&& !members.contains(uuid) ==> after.connections[uuid].lobby_id
                == before.connections[uuid].lobby_id
        }
}

/// A lobby ends when its host closes it, and when its host leaves it and it does not survive that or
/// nobody is left who understands that it would: it is gone, with its code, and everyone who was in
/// it is in no lobby. Each of them but the host hears why, and the host hears that each of them is
/// gone for it; nobody else hears anything.
pub proof fn law_a_lobby_ends_for_everyone(
    server: ServerView,
    host_uuid: u128,
    id: u64,
    departure: Departure,
)
    requires
        server.well_formed(),
        server.connections.dom().contains(host_uuid),
        server.connections[host_uuid].lobby_id == Some(id),
        server.lobbies[id].host_uuid == host_uuid,
        departure == Departure::Close || !server.lobbies[id].host_migration || forall|uuid: u128|
            #[trigger] server.lobbies[id].members.contains(uuid) && uuid != host_uuid ==> !migrates(
                server,
                uuid,
            ),
    ensures
        ({
            let before = server.lobbies[id];
            let after = lobby::departed(server, host_uuid, departure);
            let why = if departure == Departure::Close {
                "Host closed the lobby"@
            } else {
                "Host left the lobby"@
            };
            &&& after.lobbies == server.lobbies.remove(id)
            &&& after.codes == server.codes.remove(before.code)
            &&& after.limits == server.limits
            &&& forall|uuid: u128|
                before.members.contains(uuid) && uuid != host_uuid ==> #[trigger] hears(
                    server,
                    after,
                    uuid,
                    seq![ServerMessageView::Disconnected { reason: why }],
                )
            &&& forall|uuid: u128| #[trigger]
                before.members.contains(uuid) ==> after.connections[uuid].lobby_id is None
            &&& hears_the_rest_go(server, after, host_uuid, before.members)
            &&& forall|uuid: u128|
                !before.members.contains(uuid) ==> #[trigger] hears_nothing(server, after, uuid)
            &&& others_stay(server, after, before.members)
        }),
{
    let before = server.lobbies[id];
    let after = lobby::departed(server, host_uuid, departure);
    let rest = state::without(before.members, host_uuid);
    let gone = server.placed(host_uuid, None);
    assert(server.connection_in_order(host_uuid));
    assert(server.lobby_in_order(id));
    laws::lemma_filtered(before.members, state::all_but(host_uuid));
    laws::lemma_filtered(rest, lobby::can_follow(gone));
    assert(gone.connections.dom() =~= server.connections.dom());
    assert forall|uuid: u128| before.members.contains(uuid) implies #[trigger] migrates(
        server,
        uuid,
    ) == lobby::can_follow(gone)(uuid) && server.connections.dom().contains(uuid) by {
        assert(server.lobby_of(uuid) == Some(id));
    }
    if lobby::hands_on(gone, before, rest, departure) {
        let follower = lobby::followers(gone, rest)[0];
        assert(lobby::followers(gone, rest).contains(follower));
        assert(before.members.contains(follower));
        assert(migrates(server, follower) == lobby::can_follow(gone)(follower));
    }
    laws::lemma_departed_parts(server, host_uuid, departure);
    let reason = lobby::end_reason(departure);
    let emptied = ServerView {
        lobbies: gone.lobbies.remove(id),
        codes: gone.codes.remove(before.code),
        ..gone
    };
    let over = lobby::ended(gone, id, rest, departure);
    lobby::lemma_disconnected_keeps(emptied, rest, reason);
    let message = ServerMessageView::Disconnected { reason };
    assert forall|uuid: u128| sent_to(after.outbox, uuid) == if uuid == host_uuid {
        sent_to(server.outbox, uuid) + rest.map_values(
            |peer: u128| ServerMessageView::PlayerLeft { player_uuid: peer },
        )
    } else if before.members.contains(uuid) {
        sent_to(server.outbox, uuid).push(message)
    } else {
        sent_to(server.outbox, uuid)
    } by {
        lemma_disconnected(emptied, rest, reason, uuid);
        lemma_parted(over, host_uuid, rest, uuid);
        if before.members.contains(uuid) {
            assert(server.lobby_of(uuid) == Some(id));
        }
    }
    lemma_rest_go(server, after, host_uuid, before.members, rest);
    assert forall|uuid: u128|
        before.members.contains(uuid) && uuid != host_uuid implies #[trigger] hears(
        server,
        after,
        uuid,
        seq![message],
    ) by {
        assert(sent_to(server.outbox, uuid).push(message) =~= sent_to(server.outbox, uuid) + seq![
            message,
        ]);
    }
    assert forall|uuid: u128| !before.members.contains(uuid) implies #[trigger] hears_nothing(
        server,
        after,
        uuid,
    ) by {}
}

/// When a member leaves that does not host, its lobby goes on without it: everyone else stays, in
/// the order they joined, and hears who left, once; the leaver hears that each of them is gone for
/// it; nobody else hears anything, and nothing else about the lobby changes.
pub proof fn law_a_lobby_goes_on_without_a_member(server: ServerView, uuid: u128, id: u64)
    requires
        server.well_formed(),
        server.connections.dom().contains(uuid),
        server.connections[uuid].lobby_id == Some(id),
        server.lobbies[id].host_uuid != uuid,
    ensures
        ({
            let before = server.lobbies[id];
            let after = lobby::departed(server, uuid, Departure::Leave);
            let now = after.lobbies[id];
            &&& after.lobbies == server.lobbies.insert(id, now)
            &&& now == (LobbyView { members: now.members, ..before })
            &&& now.members.no_duplicates()
            &&& stay_in_order(before.members, now.members, |other: u128| other != uuid)
            &&& after.codes == server.codes
            &&& after.limits == server.limits
            &&& after.connections[uuid].lobby_id is None
            &&& forall|member: u128|
                now.members.contains(member) ==> #[trigger] hears(
                    server,
                    after,
                    member,
                    seq![ServerMessageView::PlayerLeft { player_uuid: uuid }],
                )
            &&& hears_the_rest_go(server, after, uuid, before.members)
            &&& forall|other: u128|
                !before.members.contains(other) ==> #[trigger] hears_nothing(server, after, other)
            &&& others_stay(server, after, seq![uuid])
        }),
{
    let before = server.lobbies[id];
    let after = lobby::departed(server, uuid, Departure::Leave);
    let rest = state::without(before.members, uuid);
    let gone = server.placed(uuid, None);
    assert(server.connection_in_order(uuid));
    assert(server.lobby_in_order(id));
    laws::lemma_filtered(before.members, state::all_but(uuid));
    lemma_filter_stays(before.members, state::all_but(uuid), |other: u128| other != uuid);
    laws::lemma_departed_parts(server, uuid, Departure::Leave);
    assert(gone.connections.dom() =~= server.connections.dom());
    let told = ServerView {
        lobbies: gone.lobbies.insert(id, LobbyView { members: rest, ..before }),
        ..gone
    };
    let message = ServerMessageView::PlayerLeft { player_uuid: uuid };
    lobby::lemma_queued_all_keeps(told, rest, message);
    assert forall|other: u128| sent_to(after.outbox, other) == if other == uuid {
        sent_to(server.outbox, other) + rest.map_values(
            |peer: u128| ServerMessageView::PlayerLeft { player_uuid: peer },
        )
    } else if rest.contains(other) {
        sent_to(server.outbox, other).push(message)
    } else {
        sent_to(server.outbox, other)
    } by {
        lemma_queued_all(told, rest, message, other);
        lemma_parted(told.queued_all(rest, message), uuid, rest, other);
        if rest.contains(other) {
            assert(server.lobby_of(other) == Some(id));
        }
    }
    lemma_rest_go(server, after, uuid, before.members, rest);
    assert forall|member: u128| rest.contains(member) implies #[trigger] hears(
        server,
        after,
        member,
        seq![message],
    ) by {
        assert(sent_to(server.outbox, member).push(message) =~= sent_to(server.outbox, member)
            + seq![message]);
    }
    assert forall|other: u128| !before.members.contains(other) implies #[trigger] hears_nothing(
        server,
        after,
        other,
    ) by {}
    assert(seq![uuid].contains(uuid)) by {
        assert(seq![uuid][0] == uuid);
    }
}

/// A listing says of every lobby, once, what it goes by, who hosts it, how many are in it and how
/// many it was made for; nothing is listed that is not there. There is always somebody in a lobby,
/// and never more than it was made for.
pub proof fn law_a_listing_tells_how_full_lobbies_are(
    server: ServerView,
    listing: Seq<LobbyInfoView>,
)
    requires
        server.well_formed(),
        lobby::lists_all(server, listing),
    ensures
        forall|i: int|
            0 <= i < listing.len() ==> {
                let entry = #[trigger] listing[i];
                let lobby = server.lobbies[entry.lobby_id];
                &&& server.lobbies.dom().contains(entry.lobby_id)
                &&& entry.code == lobby.code
                &&& entry.host_name == lobby.host_name
                &&& entry.player_count == lobby.members.len()
                &&& entry.max_players == lobby.max_players
                &&& 1 <= entry.player_count <= entry.max_players <= 64
            },
        forall|id: u64| #[trigger]
            server.lobbies.dom().contains(id) ==> exists|i: int|
                0 <= i < listing.len() && (#[trigger] listing[i]).lobby_id == id,
        forall|i: int, j: int|
            0 <= i < j < listing.len() ==> (#[trigger] listing[i]).lobby_id != (
            #[trigger] listing[j]).lobby_id,
{
    let order = choose|order: Seq<u64>|
        {
            &&& #[trigger] order.no_duplicates()
            &&& order.to_set() == server.lobbies.dom()
            &&& listing.len() == order.len()
            &&& forall|i: int|
                0 <= i < order.len() ==> #[trigger] listing[i] == lobby::summary(
                    server.lobbies[order[i]],
                )
        };
    assert forall|i: int| 0 <= i < listing.len() implies server.lobbies.dom().contains(order[i])
        && (#[trigger] listing[i]).lobby_id == order[i] && server.lobby_in_order(order[i]) by {
        assert(order.to_set().contains(order[i]));
        assert(server.lobby_in_order(order[i]));
    }
    assert forall|id: u64| #[trigger] server.lobbies.dom().contains(id) implies exists|i: int|
        0 <= i < listing.len() && (#[trigger] listing[i]).lobby_id == id by {
        assert(order.to_set().contains(id));
        let i = choose|i: int| 0 <= i < order.len() && order[i] == id;
        assert(listing[i].lobby_id == id);
    }
}

/// A lobby that was just created for `players` is listed with one player in it, and room for
/// `players`, under its host's name.
pub proof fn law_a_created_lobby_is_listed(
    server: ServerView,
    host_uuid: u128,
    players: u32,
    id: u64,
    code: Seq<char>,
    listing: Seq<LobbyInfoView>,
)
    requires
        server.well_formed(),
        server.connections.dom().contains(host_uuid),
        server.connections[host_uuid].lobby_id is None,
        server.id_is_free(id),
        server.code_is_free(code),
        1 <= players <= 64,
        lobby::lists_all(lobby::created(server, host_uuid, players, id, code), listing),
    ensures
        exists|i: int|
            0 <= i < listing.len() && #[trigger] listing[i] == (LobbyInfoView {
                lobby_id: id,
                code,
                host_name: server.connections[host_uuid].display_name,
                player_count: 1,
                max_players: players,
            }),
{
    let after = lobby::created(server, host_uuid, players, id, code);
    laws::law_create_keeps_order(server, host_uuid, players, id, code);
    law_a_created_lobby_is_its_hosts(server, host_uuid, players, id, code);
    law_a_listing_tells_how_full_lobbies_are(after, listing);
    assert(after.lobbies.dom().contains(id));
    let i = choose|i: int| 0 <= i < listing.len() && (#[trigger] listing[i]).lobby_id == id;
    assert(listing[i].player_count == 1);
}

/// Before it has said who it is, a client changes nothing on the server but by saying so, and is
/// sent nothing by the server but that it has to.
pub proof fn law_a_stranger_changes_nothing(
    session: Session,
    before: ServerView,
    message: ClientMessage,
    now: u64,
    session_after: Session,
    after: ServerView,
    reply: Option<ServerMessageView>,
)
    requires
        session.player_uuid is None,
        !(message is Authenticate),
        ws_handler::handled(session, before, message, now, session_after, after, reply),
    ensures
        after == before,
        session_after == session,
        reply == if message is LeaveLobby || message is CloseLobby || message is Signal
            || message is KeepAlive {
            None
        } else {
            Some(ServerMessageView::LobbyError { reason: "Not authenticated"@ })
        },
{
}

/// A client says once who it is: it is told the id it is known by from then on, and is connected
/// under it and the name it gave, in no lobby and with nothing declared. Nobody else is concerned,
/// and saying it again changes nothing.
pub proof fn law_a_client_is_who_it_was_told_it_is(
    session: Session,
    before: ServerView,
    name: String,
    now: u64,
    session_after: Session,
    after: ServerView,
    reply: Option<ServerMessageView>,
)
    requires
        ws_handler::handled(
            session,
            before,
            ClientMessage::Authenticate { display_name: name },
            now,
            session_after,
            after,
            reply,
        ),
    ensures
        session_after.limiter == session.limiter,
        after.lobbies == before.lobbies,
        after.codes == before.codes,
        after.limits == before.limits,
        after.outbox == before.outbox,
        session.player_uuid is None ==> {
            &&& session_after.player_uuid matches Some(uuid)
            &&& reply == Some(ServerMessageView::Welcome { player_uuid: uuid })
            &&& after.connections.dom() == before.connections.dom().insert(uuid)
            &&& after.connections[uuid].display_name == name@
            &&& after.connections[uuid].lobby_id is None
            &&& after.connections[uuid].capabilities == 0
            &&& forall|other: u128|
                other != uuid && before.connections.dom().contains(other) ==> (
                #[trigger] after.connections[other]) == before.connections[other]
        },
        session.player_uuid is Some ==> {
            &&& session_after.player_uuid == session.player_uuid
            &&& after.connections == before.connections
            &&& reply == Some(ServerMessageView::LobbyError { reason: "Already authenticated"@ })
        },
{
}

/// A player that changes its name goes by the new one from then on, and so does every lobby it
/// hosts, and nothing else: no lobby it does not host, nobody else, and nobody hears of it.
pub proof fn law_a_name_changes_everywhere(
    session: Session,
    before: ServerView,
    name: String,
    now: u64,
    session_after: Session,
    after: ServerView,
    reply: Option<ServerMessageView>,
    uuid: u128,
)
    requires
        before.well_formed(),
        session.player_uuid == Some(uuid),
        before.connections.dom().contains(uuid),
        ws_handler::handled(
            session,
            before,
            ClientMessage::SetDisplayName { display_name: name },
            now,
            session_after,
            after,
            reply,
        ),
    ensures
        session_after == session,
        reply is None,
        after.outbox == before.outbox,
        after.codes == before.codes,
        after.limits == before.limits,
        after.connections.dom() == before.connections.dom(),
        after.connections[uuid] == (ConnectionView {
            display_name: name@,
            ..before.connections[uuid]
        }),
        forall|other: u128|
            other != uuid && before.connections.dom().contains(other) ==> (
            #[trigger] after.connections[other]) == before.connections[other],
        after.lobbies.dom() == before.lobbies.dom(),
        forall|id: u64| #[trigger]
            before.lobbies.dom().contains(id) ==> after.lobbies[id] == (LobbyView {
                host_name: if before.lobbies[id].host_uuid == uuid {
                    name@
                } else {
                    before.lobbies[id].host_name
                },
                ..before.lobbies[id]
            }),
{
    assert(after.connections.dom() =~= before.connections.dom());
    assert(after.lobbies.dom() =~= before.lobbies.dom());
    assert forall|id: u64| #[trigger] before.lobbies.dom().contains(id) implies after.lobbies[id]
        == (LobbyView {
        host_name: if before.lobbies[id].host_uuid == uuid {
            name@
        } else {
            before.lobbies[id].host_name
        },
        ..before.lobbies[id]
    }) by {
        assert(before.lobby_in_order(id));
        if before.lobbies[id].host_uuid == uuid {
            assert(before.lobbies[id].members.contains(uuid));
            assert(before.lobby_of(uuid) == Some(id));
        }
    }
}

/// What a player declares it is able to do is what counts from then on, whatever it declared
/// before; nothing else changes.
pub proof fn law_the_last_declaration_counts(
    session: Session,
    before: ServerView,
    capabilities: u64,
    now: u64,
    session_after: Session,
    after: ServerView,
    reply: Option<ServerMessageView>,
    uuid: u128,
)
    requires
        session.player_uuid == Some(uuid),
        before.connections.dom().contains(uuid),
        ws_handler::handled(
            session,
            before,
            ClientMessage::DeclareCapabilities { capabilities },
            now,
            session_after,
            after,
            reply,
        ),
    ensures
        session_after == session,
        reply is None,
        after == (ServerView { connections: after.connections, ..before }),
        after.connections == before.connections.insert(uuid, after.connections[uuid]),
        after.connections[uuid] == (ConnectionView { capabilities, ..before.connections[uuid] }),
        migrates(after, uuid) == (capabilities & CAPABILITY_HOST_MIGRATION
            == CAPABILITY_HOST_MIGRATION),
{
    assert(after.connections =~= before.connections.insert(uuid, after.connections[uuid]));
}

/// A signal reaches whom it is for, with what was signalled and from whom, if both are in one lobby
/// and one of them hosts it; otherwise it reaches nobody. Nobody else hears it, the sender is
/// answered nothing, and nothing else changes.
pub proof fn law_a_signal_reaches_the_other_end(
    session: Session,
    before: ServerView,
    receiver: u128,
    data: String,
    now: u64,
    session_after: Session,
    after: ServerView,
    reply: Option<ServerMessageView>,
    uuid: u128,
)
    requires
        before.well_formed(),
        session.player_uuid == Some(uuid),
        ws_handler::handled(
            session,
            before,
            ClientMessage::Signal { receiver_uuid: receiver, data },
            now,
            session_after,
            after,
            reply,
        ),
    ensures
        session_after == session,
        reply is None,
        after == (ServerView { outbox: after.outbox, ..before }),
        ({
            let carried = receiver != uuid && exists|id: u64|
                #![trigger before.lobbies[id]]
                before.lobbies.dom().contains(id) && before.lobbies[id].members.contains(uuid)
                    && before.lobbies[id].members.contains(receiver) && (
                before.lobbies[id].host_uuid == uuid || before.lobbies[id].host_uuid == receiver);
            &&& carried ==> hears(
                before,
                after,
                receiver,
                seq![ServerMessageView::Signal { sender_uuid: uuid, data: data@ }],
            )
            &&& !carried ==> hears_nothing(before, after, receiver)
            &&& forall|other: u128|
                other != receiver ==> #[trigger] hears_nothing(before, after, other)
        }),
{
    let message = ServerMessageView::Signal { sender_uuid: uuid, data: data@ };
    let carried = receiver != uuid && exists|id: u64|
        #![trigger before.lobbies[id]]
        before.lobbies.dom().contains(id) && before.lobbies[id].members.contains(uuid)
            && before.lobbies[id].members.contains(receiver) && (before.lobbies[id].host_uuid
            == uuid || before.lobbies[id].host_uuid == receiver);
    if carried {
        let id = choose|id: u64|
            #![trigger before.lobbies[id]]
            before.lobbies.dom().contains(id) && before.lobbies[id].members.contains(uuid)
                && before.lobbies[id].members.contains(receiver) && (before.lobbies[id].host_uuid
                == uuid || before.lobbies[id].host_uuid == receiver);
        assert(before.lobby_in_order(id));
        assert(before.lobby_of(uuid) == Some(id) && before.lobby_of(receiver) == Some(id));
    } else if ws_handler::relays(before, uuid, receiver) {
        assert(before.connection_in_order(uuid) && before.connection_in_order(receiver));
        let id = before.lobby_of(uuid)->0;
        assert(before.lobbies[id].members.contains(uuid));
    }
    assert forall|other: u128| sent_to(after.outbox, other) == if other == receiver && carried {
        sent_to(before.outbox, other).push(message)
    } else {
        sent_to(before.outbox, other)
    } by {
        lemma_queued(before, receiver, message, other);
    }
    let owed = sent_to(before.outbox, receiver);
    assert(owed.push(message) =~= owed + seq![message]);
    assert forall|other: u128| other != receiver implies #[trigger] hears_nothing(
        before,
        after,
        other,
    ) by {}
}

/// Guessing at codes and creating lobbies is limited, and nothing else is, on top of what every
/// frame is charged: whoever asks for either with no token left is told so and gets nothing, and
/// each of them takes a token that is there.
pub proof fn law_only_lobby_operations_are_charged_twice(
    session: Session,
    before: ServerView,
    message: ClientMessage,
    now: u64,
    session_after: Session,
    after: ServerView,
    reply: Option<ServerMessageView>,
    uuid: u128,
)
    requires
        session.player_uuid == Some(uuid),
        session.limiter.lobby_ops.refilled <= now,
        ws_handler::handled(session, before, message, now, session_after, after, reply),
    ensures
        session_after.player_uuid == session.player_uuid,
        session_after.limiter.soft == session.limiter.soft,
        session_after.limiter.hard == session.limiter.hard,
        !(message is CreateLobby) && !(message is JoinLobbyByCode) ==> session_after == session,
        message is CreateLobby || message is JoinLobbyByCode ==> {
            let tokens = session.limiter.lobby_ops;
            let level = tokens.tokens + (now - tokens.refilled) * tokens.per_second;
            let fits = if level <= tokens.capacity {
                level
            } else {
                tokens.capacity as int
            };
            &&& fits < 1_000_000_000_000 ==> after == before && reply == Some(
                ServerMessageView::LobbyError { reason: "rate limited"@ },
            ) && session_after.limiter.lobby_ops.tokens == fits
            &&& fits >= 1_000_000_000_000 ==> session_after.limiter.lobby_ops.tokens == fits
                - 1_000_000_000_000 && reply != Some(
                ServerMessageView::LobbyError { reason: "rate limited"@ },
            )
        },
{
    reveal_strlit("rate limited");
    reveal_strlit("Not authenticated");
    reveal_strlit("Already in a lobby");
    reveal_strlit("Lobby not found");
    reveal_strlit("Lobby is full");
    assert((now - session.limiter.lobby_ops.refilled) * session.limiter.lobby_ops.per_second >= 0)
        by (nonlinear_arith)
        requires
            now >= session.limiter.lobby_ops.refilled,
    ;
    assert("rate limited"@[0] == 'r');
    assert("Not authenticated"@[0] == 'N');
    assert("Already in a lobby"@[0] == 'A');
    assert("Lobby not found"@[0] == 'L');
    assert("Lobby is full"@[0] == 'L');
}

/// A connection that ends is gone, and its player has left its lobby as it would have by asking to;
/// everyone else is as connected as before.
pub proof fn law_hanging_up_is_leaving(server: ServerView, uuid: u128)
    requires
        server.well_formed(),
    ensures
        ({
            let left = lobby::departed(server, uuid, Departure::Leave);
            let after = ws_handler::hung_up(server, uuid);
            &&& after.lobbies == left.lobbies
            &&& after.codes == left.codes
            &&& after.outbox == left.outbox
            &&& after.connections.dom() == server.connections.dom().remove(uuid)
            &&& forall|other: u128|
                other != uuid && server.connections.dom().contains(other) ==> (
                #[trigger] after.connections[other]) == left.connections[other]
        }),
{
    let left = lobby::departed(server, uuid, Departure::Leave);
    if server.lobby_of(uuid) is Some {
        laws::lemma_departed_parts(server, uuid, Departure::Leave);
    }
    let after = ws_handler::hung_up(server, uuid);
    assert(after.connections.dom() =~= server.connections.dom().remove(uuid));
}

/// A client that floods the server is told so and changes nothing but what it may still send; one
/// that floods it far beyond its limit is cut off. A frame that closes the socket ends the
/// connection, and one that says nothing that can be read is passed over. Each is charged all the
/// same, and what a client that keeps to its limit says is dealt with.
pub proof fn law_every_frame_is_charged(
    session: Session,
    before: ServerView,
    now: u64,
    frame: Frame,
    session_after: Session,
    after: ServerView,
    step: Step,
)
    requires
        ws_handler::framed(session, before, now, frame, session_after, after, step),
    ensures
        ({
            let closed = !session.limiter.hard.has_token(now);
            let refused = !closed && !session.limiter.soft.has_token(now);
            let allowed = !closed && !refused;
            let told = "rate limited"@;
            let says = frame is Binary && frame->Binary_0 is Some;
            &&& session_after.limiter.hard == session.limiter.hard.charged(now)
            &&& session_after.limiter.soft == session.limiter.soft.charged(now)
            &&& step is Stop == (closed || (allowed && frame is Close))
            &&& !(allowed && says) ==> after == before && session_after.player_uuid
                == session.player_uuid && session_after.limiter.lobby_ops
                == session.limiter.lobby_ops
            &&& refused ==> step->Continue_0 is Some && (step->Continue_0->0)@ == (
            ServerMessageView::LobbyError { reason: told })
            &&& allowed && !says && !(frame is Close) ==> step->Continue_0 is None
            &&& allowed && says ==> exists|charged: Session|
                {
                    &&& charged.player_uuid == session.player_uuid
                    &&& #[trigger] ws_handler::handled(
                        charged,
                        before,
                        frame->Binary_0->0,
                        now,
                        session_after,
                        after,
                        ws_handler::reply_view(step->Continue_0),
                    )
                }
        }),
{
    let charged = Session { limiter: session.limiter.frame_charged(now), ..session };
    if session.limiter.verdict(now) == Verdict::Allow && frame is Binary && frame->Binary_0
        is Some {
        assert(ws_handler::handled(
            charged,
            before,
            frame->Binary_0->0,
            now,
            session_after,
            after,
            ws_handler::reply_view(step->Continue_0),
        ));
    }
}

/// A client that has no lobby operation left is told so, and neither creates a lobby nor joins one
/// by its code; it may still join one by its id.
pub proof fn law_a_spent_client_is_told(
    session: Session,
    before: ServerView,
    message: ClientMessage,
    now: u64,
    session_after: Session,
    after: ServerView,
    reply: Option<ServerMessageView>,
)
    requires
        session.player_uuid is Some,
        message is CreateLobby || message is JoinLobbyByCode,
        !session.limiter.lobby_ops.has_token(now),
        ws_handler::handled(session, before, message, now, session_after, after, reply),
    ensures
        after == before,
        reply == Some(ServerMessageView::LobbyError { reason: "rate limited"@ }),
        session_after.player_uuid == session.player_uuid,
{
}

/// A client that asks for a lobby is refused one if it is not connected, and if it is in a lobby
/// already, and for nothing else; a refusal is the reply and changes nothing, and a request that is
/// granted is not replied to.
pub proof fn law_a_refusal_changes_nothing(
    session: Session,
    before: ServerView,
    message: ClientMessage,
    now: u64,
    session_after: Session,
    after: ServerView,
    reply: Option<ServerMessageView>,
    uuid: u128,
)
    requires
        session.player_uuid == Some(uuid),
        message is CreateLobby || message is JoinLobby,
        message is CreateLobby ==> session.limiter.lobby_ops.has_token(now),
        ws_handler::handled(session, before, message, now, session_after, after, reply),
    ensures
        ({
            let connected = before.connections.dom().contains(uuid);
            let busy = connected && before.connections[uuid].lobby_id is Some;
            &&& !connected ==> after == before && reply == Some(
                ServerMessageView::LobbyError { reason: "Not authenticated"@ },
            )
            &&& busy ==> after == before && reply == Some(
                ServerMessageView::LobbyError { reason: "Already in a lobby"@ },
            )
            &&& message is CreateLobby && connected && !busy ==> reply is None
            &&& reply is Some ==> after == before && reply->0 is LobbyError
            &&& message is JoinLobby && reply is None ==> after == lobby::joined(
                before,
                uuid,
                message->JoinLobby_lobby_id,
            ) && lobby::join_refusal(before, uuid, message->JoinLobby_lobby_id) is None
        }),
{
}

/// Leaving a lobby and closing one are told apart: a client that leaves departs from its lobby, and
/// one that closes it ends it if it is the host's to end. Saying that one is still here does
/// nothing. Neither is replied to.
pub proof fn law_leaving_is_not_closing(
    session: Session,
    before: ServerView,
    message: ClientMessage,
    now: u64,
    session_after: Session,
    after: ServerView,
    reply: Option<ServerMessageView>,
    uuid: u128,
)
    requires
        session.player_uuid == Some(uuid),
        message is LeaveLobby || message is CloseLobby || message is KeepAlive,
        ws_handler::handled(session, before, message, now, session_after, after, reply),
    ensures
        reply is None,
        session_after == session,
        message is LeaveLobby ==> after == lobby::departed(before, uuid, Departure::Leave),
        message is CloseLobby ==> after == lobby::departed(before, uuid, Departure::Close),
        message is KeepAlive ==> after == before,
{
}

/// Unless a deployment asks for other limits, a client may be silent for a minute, send twenty
/// messages a second and forty at once, and create or join by code once a second, twice at once.
pub proof fn law_the_limits_are_those_of_a_game()
    ensures
        ({
            let limits = state::default_limits();
            &&& limits.idle_timeout_nanos == 60 * 1_000_000_000
            &&& limits.messages_per_second.0 == 20 * 1_000
            &&& limits.message_burst.0 == 2 * limits.messages_per_second.0
            &&& limits.lobby_ops_per_second.0 == 1_000
            &&& limits.lobby_ops_burst.0 == 2 * limits.lobby_ops_per_second.0
        }),
{
}

proof fn lemma_letters(n: int)
    requires
        0 <= n < 456_976,
    ensures
        ({
            let (a, b, c, d) = (n / 17_576, n / 676 % 26, n / 26 % 26, n % 26);
            &&& 0 <= a < 26 && 0 <= b < 26 && 0 <= c < 26 && 0 <= d < 26
            &&& n == 17_576 * a + 676 * b + 26 * c + d
        }),
{
    assert(n == 26 * (n / 26) + n % 26);
    assert(n / 26 == 26 * (n / 676) + n / 26 % 26);
    assert(n / 676 == 26 * (n / 17_576) + n / 676 % 26);
}

/// Whether one code stands before another in alphabetical order: at the first place where they
/// differ, its letter is the earlier one.
pub open spec fn stands_before(one: Seq<char>, other: Seq<char>) -> bool {
    ||| one[0] < other[0]
    ||| one[0] == other[0] && one[1] < other[1]
    ||| one[0] == other[0] && one[1] == other[1] && one[2] < other[2]
    ||| one[0] == other[0] && one[1] == other[1] && one[2] == other[2] && one[3] < other[3]
}

/// A lobby code is four capital letters; the codes stand in alphabetical order, no two alike.
pub proof fn law_codes_are_in_order(one: int, other: int)
    requires
        0 <= one < other < 456_976,
    ensures
        draws::nth_code(one).len() == 4,
        forall|i: int| 0 <= i < 4 ==> 'A' <= #[trigger] draws::nth_code(one)[i] <= 'Z',
        state::is_code(draws::nth_code(one)),
        stands_before(draws::nth_code(one), draws::nth_code(other)),
{
    lemma_letters(one);
    lemma_letters(other);
    let (a, b, c, d) = (one / 17_576, one / 676 % 26, one / 26 % 26, one % 26);
    let (e, f, g, h) = (other / 17_576, other / 676 % 26, other / 26 % 26, other % 26);
    assert(a < e || (a == e && b < f) || (a == e && b == f && c < g) || (a == e && b == f && c == g
        && d < h));
}

/// A lobby is created for exactly these frames: one that keeps to the limit, from a client that has
/// said who it is, is connected, in no lobby, and has a lobby operation left, and that asks for a
/// lobby.
pub proof fn law_who_is_given_a_lobby(
    session: Session,
    server: ServerView,
    now: u64,
    frame: Frame,
    uuid: u128,
)
    ensures
        ({
            let creates = ws_handler::frame_creates(session, server, now, frame);
            let asks = frame is Binary && frame->Binary_0 is Some && frame->Binary_0->0
                is CreateLobby;
            let may = session.limiter.hard.has_token(now) && session.limiter.soft.has_token(now)
                && session.limiter.lobby_ops.has_token(now);
            let free = server.connections.dom().contains(uuid)
                && server.connections[uuid].lobby_id is None;
            &&& session.player_uuid == Some(uuid) ==> creates == (asks && may && free)
            &&& session.player_uuid is None ==> !creates
        }),
{
}

/// What is refused, in so many words, leaves the server as it was.
pub proof fn law_what_is_refused_leaves_no_trace(
    before: ServerView,
    after: ServerView,
    result: Result<(), ServerMessage>,
    reason: Seq<char>,
)
    requires
        lobby::is_refused(before, after, result, reason),
    ensures
        after == before,
        result is Err,
        result->Err_0@ == (ServerMessageView::LobbyError { reason }),
{
}

/// What a lobby is found by is four letters, each a capital one, and every four of those will do; a
/// lobby is created only under one that is not taken, and under an id that is neither taken nor
/// zero.
pub proof fn law_a_code_is_four_capital_letters(server: ServerView, code: Seq<char>, id: u64)
    ensures
        state::is_code(code) <==> {
            &&& code.len() == 4
            &&& 'A' <= code[0] <= 'Z' && 'A' <= code[1] <= 'Z'
            &&& 'A' <= code[2] <= 'Z' && 'A' <= code[3] <= 'Z'
        },
        server.code_is_free(code) == (state::is_code(code) && !server.codes.contains_key(code)),
        server.id_is_free(id) == (id > 0 && !server.lobbies.contains_key(id)),
{
}

/// A client's id has the marks of a random one: a four for its version, and the standard variant.
pub proof fn law_ids_are_random_ones(uuid: u128)
    ensures
        ws_handler::is_random_uuid(uuid) == ((uuid >> 76) & 0xF == 4 && (uuid >> 62) & 0x3 == 2),
{
    assert((uuid & 0xF000_C000_0000_0000_0000 == 0x4000_8000_0000_0000_0000) == ((uuid >> 76) & 0xF
        == 4 && (uuid >> 62) & 0x3 == 2)) by (bit_vector);
}

} // verus!
