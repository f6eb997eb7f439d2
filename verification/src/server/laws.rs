//! What every operation on the server keeps.

use vstd::prelude::*;

use super::lobby;
use super::lobby::{Departure, MAX_PLAYERS};
use super::state;
use super::state::{LobbyView, OutgoingView, ServerView};
use super::ws_handler;
use super::ws_handler::Session;
use crate::lists;
use crate::protocol::{ClientMessage, ServerMessageView, CAPABILITY_HOST_MIGRATION};

verus! {

impl ServerView {
    /// Whether the lobby `id` is in order: it goes by its own id and code, its host is one of its
    /// members, there are no more of them than it was made for, and each is connected and knows
    /// that it is in it.
    pub open spec fn lobby_in_order(self, id: u64) -> bool {
        let lobby = self.lobbies[id];
        &&& lobby.lobby_id == id
        &&& id != 0
        &&& state::is_code(lobby.code)
        &&& self.codes.dom().contains(lobby.code)
        &&& self.codes[lobby.code] == id
        &&& lobby.members.no_duplicates()
        &&& lobby.members.contains(lobby.host_uuid)
        &&& 1 <= lobby.members.len() <= lobby.max_players <= MAX_PLAYERS
        &&& forall|uuid: u128| #[trigger]
            lobby.members.contains(uuid) ==> self.lobby_of(uuid) == Some(id)
    }

    /// Whether `uuid`'s connection is in order: it is a member of the lobby it says it is in.
    pub open spec fn connection_in_order(self, uuid: u128) -> bool {
        self.lobby_of(uuid) matches Some(id) ==> {
            &&& self.lobbies.dom().contains(id)
            &&& self.lobbies[id].members.contains(uuid)
        }
    }

    /// Whether the server is in order: every lobby is; a connection that says it is in a lobby is
    /// a member of it; and a code leads to the lobby that goes by it.
    pub open spec fn well_formed(self) -> bool {
        &&& forall|id: u64| #[trigger]
            self.lobbies.dom().contains(id) ==> self.lobby_in_order(id)
        &&& forall|uuid: u128| #![trigger self.lobby_of(uuid)] self.connection_in_order(uuid)
        &&& forall|code: Seq<char>| #[trigger]
            self.codes.dom().contains(code) ==> {
                &&& self.lobbies.dom().contains(self.codes[code])
                &&& self.lobbies[self.codes[code]].code == code
            }
    }
}

/// A server that knows nobody is in order.
pub proof fn law_empty_server_is_well_formed(server: ServerView)
    requires
        server.lobbies.dom() == Set::<u64>::empty(),
        server.codes.dom() == Set::<Seq<char>>::empty(),
        server.connections.dom() == Set::<u128>::empty(),
    ensures
        server.well_formed(),
{
}

/// Creating a lobby under a free id and a free code keeps the server in order.
pub proof fn law_create_keeps_order(
    server: ServerView,
    host_uuid: u128,
    max_players: u32,
    lobby_id: u64,
    code: Seq<char>,
)
    requires
        server.well_formed(),
        lobby::entry_refusal(server, host_uuid) is None,
        server.id_is_free(lobby_id),
        server.code_is_free(code),
    ensures
        lobby::created(server, host_uuid, max_players, lobby_id, code).well_formed(),
{
    let after = lobby::created(server, host_uuid, max_players, lobby_id, code);
    let lobby = after.lobbies[lobby_id];
    assert(lobby.members[0] == host_uuid);
    assert forall|id: u64| #[trigger] after.lobbies.dom().contains(id) implies after.lobby_in_order(
        id,
    ) by {
        if id == lobby_id {
            assert forall|uuid: u128| #[trigger]
                lobby.members.contains(uuid) implies after.lobby_of(uuid) == Some(id) by {}
        } else {
            assert(server.lobby_in_order(id));
            assert forall|uuid: u128| #[trigger]
                after.lobbies[id].members.contains(uuid) implies after.lobby_of(uuid) == Some(
                id,
            ) by {
                assert(server.lobby_of(uuid) == Some(id));
            }
        }
    }
    assert forall|uuid: u128|
        #![trigger after.lobby_of(uuid)]
        after.connection_in_order(uuid) by {
        if uuid != host_uuid {
            assert(after.lobby_of(uuid) == server.lobby_of(uuid));
        }
    }
}

/// Joining a lobby keeps the server in order.
pub proof fn law_join_keeps_order(server: ServerView, player_uuid: u128, lobby_id: u64)
    requires
        server.well_formed(),
        lobby::join_refusal(server, player_uuid, lobby_id) is None,
    ensures
        lobby::joined(server, player_uuid, lobby_id).well_formed(),
{
    let before = server.lobbies[lobby_id];
    let after = lobby::joined(server, player_uuid, lobby_id);
    let members = before.members.push(player_uuid);
    assert(server.lobby_in_order(lobby_id));
    let placed = ServerView {
        lobbies: server.lobbies.insert(lobby_id, LobbyView { members, ..before }),
        ..server
    }.placed(player_uuid, Some(lobby_id));
    lobby::lemma_queued_all_keeps(
        placed,
        state::without(members, player_uuid),
        ServerMessageView::PlayerJoined { player_uuid },
    );
    assert(after.connections == placed.connections && after.lobbies == placed.lobbies
        && after.codes == placed.codes);
    assert(server.lobby_of(player_uuid) is None);
    assert(!before.members.contains(player_uuid));
    assert forall|uuid: u128| members.contains(uuid) implies before.members.contains(uuid) || uuid
        == player_uuid by {
        let i = choose|i: int| 0 <= i < members.len() && members[i] == uuid;
        if i < before.members.len() {
            assert(before.members[i] == uuid);
        }
    }
    assert forall|uuid: u128| before.members.contains(uuid) implies members.contains(uuid) by {
        let i = choose|i: int| 0 <= i < before.members.len() && before.members[i] == uuid;
        assert(members[i] == uuid);
    }
    assert(members[before.members.len() as int] == player_uuid);
    assert forall|i: int, j: int|
        0 <= i < members.len() && 0 <= j < members.len() && i != j implies members[i]
        != members[j] by {
        if i < before.members.len() {
            assert(before.members.contains(before.members[i]));
        }
        if j < before.members.len() {
            assert(before.members.contains(before.members[j]));
        }
    }
    assert forall|id: u64| #[trigger] after.lobbies.dom().contains(id) implies after.lobby_in_order(
        id,
    ) by {
        assert(server.lobby_in_order(id));
        assert forall|uuid: u128| #[trigger]
            after.lobbies[id].members.contains(uuid) implies after.lobby_of(uuid) == Some(id) by {
            if uuid != player_uuid {
                assert(after.lobby_of(uuid) == server.lobby_of(uuid));
                assert(server.lobbies[id].members.contains(uuid));
            } else if id != lobby_id {
                assert(server.lobby_of(uuid) == Some(id));
            }
        }
    }
    assert forall|uuid: u128|
        #![trigger after.lobby_of(uuid)]
        after.connection_in_order(uuid) by {
        if uuid != player_uuid {
            assert(after.lobby_of(uuid) == server.lobby_of(uuid));
        }
    }
}

/// What is left of a list without duplicates has none either, and is what passes.
pub(crate) proof fn lemma_filtered(members: Seq<u128>, keep: spec_fn(u128) -> bool)
    ensures
        members.filter(keep).len() <= members.len(),
        members.no_duplicates() ==> members.filter(keep).no_duplicates(),
        forall|uuid: u128|
            members.filter(keep).contains(uuid) <==> members.contains(uuid) && keep(uuid),
    decreases members.len(),
{
    reveal(Seq::filter);
    if members.len() > 0 {
        let shorter = members.drop_last();
        lemma_filtered(shorter, keep);
        assert(members =~= shorter.push(members.last()));
        assert forall|uuid: u128| members.contains(uuid) == (shorter.contains(uuid) || uuid
            == members.last()) by {
            lists::lemma_pushed(shorter, members.last(), uuid);
        }
        assert forall|uuid: u128|
            members.filter(keep).contains(uuid) <==> members.contains(uuid) && keep(uuid) by {
            lists::lemma_pushed(shorter.filter(keep), members.last(), uuid);
        }
        if members.no_duplicates() {
            assert(shorter.no_duplicates());
            assert(!shorter.contains(members.last())) by {
                if shorter.contains(members.last()) {
                    let i = choose|i: int|
                        0 <= i < shorter.len() && shorter[i] == members.last();
                    assert(members[i] == members[members.len() - 1]);
                }
            }
            assert(!shorter.filter(keep).contains(members.last()));
            assert(forall|i: int|
                0 <= i < shorter.filter(keep).len() ==> shorter.filter(keep).contains(
                    #[trigger] shorter.filter(keep)[i],
                ));
        }
    }
}

/// Telling a leaver who is gone for it changes nothing but the queue.
pub(crate) proof fn lemma_parted_keeps(server: ServerView, leaver: u128, peers: Seq<u128>)
    ensures
        lobby::parted(server, leaver, peers) == (ServerView {
            outbox: lobby::parted(server, leaver, peers).outbox,
            ..server
        }),
    decreases peers.len(),
{
    if peers.len() > 0 {
        lemma_parted_keeps(server, leaver, peers.drop_last());
    }
}

/// The server after a departure that changes its lobby, apart from what is queued.
pub(crate) proof fn lemma_departed_parts(server: ServerView, player_uuid: u128, departure: Departure)
    requires
        server.well_formed(),
        server.lobby_of(player_uuid) is Some,
        !(departure == Departure::Close && server.lobbies[server.lobby_of(
            player_uuid,
        )->0].host_uuid != player_uuid),
    ensures
        ({
            let id = server.lobby_of(player_uuid)->0;
            let lobby = server.lobbies[id];
            let rest = state::without(lobby.members, player_uuid);
            let gone = server.placed(player_uuid, None);
            let after = lobby::departed(server, player_uuid, departure);
            &&& after.limits == server.limits
            &&& after.connections.dom() == server.connections.dom()
            &&& if lobby.host_uuid != player_uuid {
                &&& after.lobbies == server.lobbies.insert(
                    id,
                    LobbyView { members: rest, ..lobby },
                )
                &&& after.codes == server.codes
                &&& after.connections == gone.connections
            } else if lobby::hands_on(gone, lobby, rest, departure) {
                &&& after.lobbies == server.lobbies.insert(
                    id,
                    lobby::inherited(gone, lobby, rest),
                )
                &&& after.codes == server.codes
                &&& after.connections == lobby::disconnected(
                    gone,
                    lobby::stranded(gone, rest),
                    lobby::end_reason(Departure::Leave),
                ).connections
            } else {
                &&& after.lobbies == server.lobbies.remove(id)
                &&& after.codes == server.codes.remove(lobby.code)
                &&& after.connections == lobby::disconnected(
                    ServerView {
                        lobbies: gone.lobbies.remove(id),
                        codes: gone.codes.remove(lobby.code),
                        ..gone
                    },
                    rest,
                    lobby::end_reason(departure),
                ).connections
            }
        }),
{
    let id = server.lobby_of(player_uuid)->0;
    assert(server.connection_in_order(player_uuid));
    assert(server.lobbies.dom().contains(id));
    let lobby = server.lobbies[id];
    let rest = state::without(lobby.members, player_uuid);
    let gone = server.placed(player_uuid, None);
    assert(gone.connections.dom() =~= server.connections.dom());
    if lobby.host_uuid != player_uuid {
        let told = ServerView {
            lobbies: gone.lobbies.insert(id, LobbyView { members: rest, ..lobby }),
            ..gone
        };
        let settled = told.queued_all(rest, ServerMessageView::PlayerLeft { player_uuid });
        lobby::lemma_queued_all_keeps(told, rest, ServerMessageView::PlayerLeft { player_uuid });
        lemma_parted_keeps(settled, player_uuid, rest);
    } else if lobby::hands_on(gone, lobby, rest, departure) {
        let settled = lobby::handed_over(gone, id, player_uuid, rest);
        let heir = lobby::inherited(gone, lobby, rest);
        let released = lobby::disconnected(
            gone,
            lobby::stranded(gone, rest),
            lobby::end_reason(Departure::Leave),
        );
        lobby::lemma_disconnected_keeps(
            gone,
            lobby::stranded(gone, rest),
            lobby::end_reason(Departure::Leave),
        );
        lobby::lemma_queued_all_keeps(
            ServerView { lobbies: gone.lobbies.insert(id, heir), ..released },
            heir.members,
            ServerMessageView::HostChanged {
                lobby_id: heir.lobby_id,
                previous_host: player_uuid,
                new_host: heir.host_uuid,
                code: heir.code,
                members: heir.members,
            },
        );
        lemma_parted_keeps(settled, player_uuid, rest);
    } else {
        let settled = lobby::ended(gone, id, rest, departure);
        lobby::lemma_disconnected_keeps(
            ServerView {
                lobbies: gone.lobbies.remove(id),
                codes: gone.codes.remove(lobby.code),
                ..gone
            },
            rest,
            lobby::end_reason(departure),
        );
        lemma_parted_keeps(settled, player_uuid, rest);
    }
}

/// Leaving and closing keep the server in order.
pub proof fn law_depart_keeps_order(server: ServerView, player_uuid: u128, departure: Departure)
    requires
        server.well_formed(),
    ensures
        lobby::departed(server, player_uuid, departure).well_formed(),
{
    let after = lobby::departed(server, player_uuid, departure);
    if server.lobby_of(player_uuid) is Some {
        let id = server.lobby_of(player_uuid)->0;
        assert(server.connection_in_order(player_uuid));
        let lobby = server.lobbies[id];
        assert(server.lobby_in_order(id));
        if !(departure == Departure::Close && lobby.host_uuid != player_uuid) {
            let rest = state::without(lobby.members, player_uuid);
            let gone = server.placed(player_uuid, None);
            lemma_departed_parts(server, player_uuid, departure);
            lemma_filtered(lobby.members, state::all_but(player_uuid));
            lemma_filtered(rest, lobby::can_follow(gone));
            lemma_filtered(rest, lobby::cannot_follow(gone));
            lobby::lemma_disconnected_keeps(
                gone,
                lobby::stranded(gone, rest),
                lobby::end_reason(Departure::Leave),
            );
            lobby::lemma_disconnected_keeps(
                ServerView {
                    lobbies: gone.lobbies.remove(id),
                    codes: gone.codes.remove(lobby.code),
                    ..gone
                },
                rest,
                lobby::end_reason(departure),
            );
            let handed = lobby.host_uuid == player_uuid && lobby::hands_on(
                gone,
                lobby,
                rest,
                departure,
            );
            let heir = lobby::inherited(gone, lobby, rest);
            if handed {
                assert(heir.members.contains(heir.members[0]));
            }
            // Whoever leaves the lobby is in none, and everyone else stays where they were.
            assert forall|uuid: u128| #[trigger] after.lobby_of(uuid) == if lobby.members.contains(
                uuid,
            ) && !(after.lobbies.dom().contains(id) && after.lobbies[id].members.contains(uuid)) {
                None
            } else {
                server.lobby_of(uuid)
            } by {
                if lobby.members.contains(uuid) {
                    assert(server.lobby_of(uuid) == Some(id));
                }
            }
            assert forall|other: u64| #[trigger]
                after.lobbies.dom().contains(other) implies after.lobby_in_order(other) by {
                assert(server.lobby_in_order(other));
                assert forall|uuid: u128| #[trigger]
                    after.lobbies[other].members.contains(uuid) implies after.lobby_of(uuid)
                    == Some(other) by {
                    assert(server.lobbies[other].members.contains(uuid));
                    assert(server.lobby_of(uuid) == Some(other));
                }
                if other == id {
                    if handed {
                    } else {
                        assert(rest.contains(lobby.host_uuid));
                        assert(rest.len() > 0);
                    }
                }
            }
            assert forall|uuid: u128| #![trigger after.lobby_of(uuid)] after.connection_in_order(
                uuid,
            ) by {
                assert(server.connection_in_order(uuid));
            }
            assert forall|code: Seq<char>| #[trigger] after.codes.dom().contains(code) implies {
                &&& after.lobbies.dom().contains(after.codes[code])
                &&& after.lobbies[after.codes[code]].code == code
            } by {
                assert(server.codes.dom().contains(code));
            }
        }
    }
}

/// A connection that ends leaves the server in order.
pub proof fn law_hang_up_keeps_order(server: ServerView, uuid: u128)
    requires
        server.well_formed(),
    ensures
        ws_handler::hung_up(server, uuid).well_formed(),
        !ws_handler::hung_up(server, uuid).connections.dom().contains(uuid),
        forall|id: u64| #[trigger]
            ws_handler::hung_up(server, uuid).lobbies.dom().contains(id)
                ==> !ws_handler::hung_up(server, uuid).lobbies[id].members.contains(uuid),
{
    let left = lobby::departed(server, uuid, Departure::Leave);
    let after = ws_handler::hung_up(server, uuid);
    law_depart_keeps_order(server, uuid, Departure::Leave);
    law_who_left_is_in_no_lobby(server, uuid);
    assert forall|id: u64| #[trigger] after.lobbies.dom().contains(id) implies after.lobby_in_order(
        id,
    ) && !after.lobbies[id].members.contains(uuid) by {
        assert(left.lobby_in_order(id));
        assert forall|member: u128| #[trigger]
            after.lobbies[id].members.contains(member) implies after.lobby_of(member) == Some(
            id,
        ) by {
            assert(left.lobby_of(member) == Some(id));
        }
    }
    assert forall|member: u128| #![trigger after.lobby_of(member)] after.connection_in_order(
        member,
    ) by {
        assert(left.connection_in_order(member));
    }
}

/// Who has left is in no lobby.
pub proof fn law_who_left_is_in_no_lobby(server: ServerView, uuid: u128)
    requires
        server.well_formed(),
    ensures
        lobby::departed(server, uuid, Departure::Leave).lobby_of(uuid) is None,
        forall|id: u64| #[trigger]
            lobby::departed(server, uuid, Departure::Leave).lobbies.dom().contains(id)
                ==> !lobby::departed(server, uuid, Departure::Leave).lobbies[id].members.contains(
                uuid,
            ),
{
    let after = lobby::departed(server, uuid, Departure::Leave);
    law_depart_keeps_order(server, uuid, Departure::Leave);
    if server.lobby_of(uuid) is Some {
        let id = server.lobby_of(uuid)->0;
        assert(server.connection_in_order(uuid));
        lemma_departed_parts(server, uuid, Departure::Leave);
        let lobby = server.lobbies[id];
        let rest = state::without(lobby.members, uuid);
        let gone = server.placed(uuid, None);
        lemma_filtered(lobby.members, state::all_but(uuid));
        lobby::lemma_disconnected_keeps(
            gone,
            lobby::stranded(gone, rest),
            lobby::end_reason(Departure::Leave),
        );
        lobby::lemma_disconnected_keeps(
            ServerView {
                lobbies: gone.lobbies.remove(id),
                codes: gone.codes.remove(lobby.code),
                ..gone
            },
            rest,
            lobby::end_reason(Departure::Leave),
        );
    }
    assert forall|id: u64| #[trigger] after.lobbies.dom().contains(
        id,
    ) implies !after.lobbies[id].members.contains(uuid) by {
        assert(after.lobby_in_order(id));
    }
}

/// What a leaver is told: that each of `peers` is gone for it, in order.
pub open spec fn partings(leaver: u128, peers: Seq<u128>) -> Seq<OutgoingView> {
    peers.map_values(
        |peer: u128|
            OutgoingView {
                to: leaver,
                message: ServerMessageView::PlayerLeft { player_uuid: peer },
            },
    )
}

proof fn lemma_parted_queues(server: ServerView, leaver: u128, peers: Seq<u128>)
    requires
        server.connections.dom().contains(leaver),
    ensures
        lobby::parted(server, leaver, peers).outbox == server.outbox + partings(leaver, peers),
    decreases peers.len(),
{
    if peers.len() > 0 {
        lemma_parted_queues(server, leaver, peers.drop_last());
        lemma_parted_keeps(server, leaver, peers.drop_last());
    }
    assert(lobby::parted(server, leaver, peers).outbox =~= server.outbox + partings(
        leaver,
        peers,
    ));
}

/// Whether `uuid` is listed in no lobby but the one its connection says it is in, and hosts none
/// that it is not a member of. The lobby its connection names may be gone.
pub open spec fn listed_in_its_own_lobby(server: ServerView, uuid: u128) -> bool {
    forall|id: u64| #[trigger]
        server.lobbies.dom().contains(id) ==> {
            let lobby = server.lobbies[id];
            &&& lobby.members.contains(uuid) ==> server.lobby_of(uuid) == Some(id)
            &&& lobby.host_uuid == uuid ==> lobby.members.contains(uuid)
        }
}

/// Whoever leaves is out, in whatever state it was: in no lobby, a member, a host, or in a lobby
/// that is gone already. Afterwards its connection is in no lobby, no lobby lists it as a member or
/// has it as its host, and it may enter one again.
pub proof fn law_whoever_leaves_is_out(server: ServerView, uuid: u128)
    requires
        server.connections.dom().contains(uuid),
        listed_in_its_own_lobby(server, uuid),
    ensures
        ({
            let after = lobby::departed(server, uuid, Departure::Leave);
            &&& after.lobby_of(uuid) is None
            &&& lobby::entry_refusal(after, uuid) is None
            &&& forall|id: u64| #[trigger]
                after.lobbies.dom().contains(id) ==> !after.lobbies[id].members.contains(uuid)
                    && after.lobbies[id].host_uuid != uuid
        }),
{
    let after = lobby::departed(server, uuid, Departure::Leave);
    match server.lobby_of(uuid) {
        None => {},
        Some(id) => if server.lobbies.dom().contains(id) {
            let lobby = server.lobbies[id];
            let rest = state::without(lobby.members, uuid);
            let gone = server.placed(uuid, None);
            let reason = lobby::end_reason(Departure::Leave);
            lemma_filtered(lobby.members, state::all_but(uuid));
            if lobby.host_uuid != uuid {
                let told = ServerView {
                    lobbies: gone.lobbies.insert(id, LobbyView { members: rest, ..lobby }),
                    ..gone
                };
                let message = ServerMessageView::PlayerLeft { player_uuid: uuid };
                lobby::lemma_queued_all_keeps(told, rest, message);
                lemma_parted_keeps(told.queued_all(rest, message), uuid, rest);
            } else if lobby::hands_on(gone, lobby, rest, Departure::Leave) {
                let heir = lobby::inherited(gone, lobby, rest);
                let stranded = lobby::stranded(gone, rest);
                lemma_filtered(rest, lobby::can_follow(gone));
                assert(heir.members.contains(heir.members[0]));
                lobby::lemma_disconnected_keeps(gone, stranded, reason);
                let released = lobby::disconnected(gone, stranded, reason);
                lobby::lemma_queued_all_keeps(
                    ServerView { lobbies: gone.lobbies.insert(id, heir), ..released },
                    heir.members,
                    ServerMessageView::HostChanged {
                        lobby_id: heir.lobby_id,
                        previous_host: uuid,
                        new_host: heir.host_uuid,
                        code: heir.code,
                        members: heir.members,
                    },
                );
                lemma_parted_keeps(lobby::handed_over(gone, id, uuid, rest), uuid, rest);
            } else {
                lobby::lemma_disconnected_keeps(
                    ServerView {
                        lobbies: gone.lobbies.remove(id),
                        codes: gone.codes.remove(lobby.code),
                        ..gone
                    },
                    rest,
                    reason,
                );
                lemma_parted_keeps(
                    lobby::ended(gone, id, rest, Departure::Leave),
                    uuid,
                    rest,
                );
            }
        },
    }
    assert forall|id: u64| #[trigger] after.lobbies.dom().contains(
        id,
    ) implies !after.lobbies[id].members.contains(uuid) && after.lobbies[id].host_uuid != uuid by {
        assert(server.lobbies.dom().contains(id));
    }
}

/// A member that leaves, and does not host, leaves the rest of its lobby as it was, in order and
/// under the same host; each of them that is connected is told of it once, and the member is told
/// that each of them is gone for it. Nothing else is sent.
pub proof fn law_a_members_leave_is_told_once(server: ServerView, uuid: u128, id: u64)
    requires
        server.lobby_of(uuid) == Some(id),
        server.lobbies.dom().contains(id),
        server.lobbies[id].host_uuid != uuid,
    ensures
        ({
            let before = server.lobbies[id];
            let rest = state::without(before.members, uuid);
            let after = lobby::departed(server, uuid, Departure::Leave);
            &&& after.lobbies == server.lobbies.insert(id, LobbyView { members: rest, ..before })
            &&& after.codes == server.codes
            &&& after.outbox == server.outbox + copies(
                server,
                rest,
                ServerMessageView::PlayerLeft { player_uuid: uuid },
            ) + partings(uuid, rest)
        }),
{
    let before = server.lobbies[id];
    let rest = state::without(before.members, uuid);
    let gone = server.placed(uuid, None);
    let told = ServerView {
        lobbies: gone.lobbies.insert(id, LobbyView { members: rest, ..before }),
        ..gone
    };
    let message = ServerMessageView::PlayerLeft { player_uuid: uuid };
    lobby::lemma_queued_all_keeps(told, rest, message);
    law_everyone_connected_is_told(told, rest, message);
    lemma_parted_keeps(told.queued_all(rest, message), uuid, rest);
    lemma_parted_queues(told.queued_all(rest, message), uuid, rest);
    assert(told.connections.dom() =~= server.connections.dom());
    assert((|other: u128| told.connections.dom().contains(other)) =~= (|other: u128|
        server.connections.dom().contains(other)));
}

/// Nothing is sent when somebody leaves who is in no lobby, or in one that is gone already; nor does
/// any lobby change.
pub proof fn law_leaving_no_lobby_is_silent(server: ServerView, uuid: u128)
    requires
        server.lobby_of(uuid) matches Some(id) ==> !server.lobbies.dom().contains(id),
    ensures
        ({
            let after = lobby::departed(server, uuid, Departure::Leave);
            &&& after.outbox == server.outbox
            &&& after.lobbies == server.lobbies
            &&& after.codes == server.codes
        }),
{
}

/// Every message a client sends keeps the server in order, as long as a client that authenticates
/// is given an id that nobody has.
pub proof fn law_message_keeps_order(
    session: Session,
    before: ServerView,
    message: ClientMessage,
    now: u64,
    session_after: Session,
    after: ServerView,
    reply: Option<ServerMessageView>,
)
    requires
        before.well_formed(),
        ws_handler::handled(session, before, message, now, session_after, after, reply),
        message is Authenticate && session.player_uuid is None
            ==> !before.connections.dom().contains(session_after.player_uuid->0),
    ensures
        after.well_formed(),
{
    match (message, session.player_uuid) {
        (ClientMessage::Authenticate { display_name }, None) => {
            let uuid = session_after.player_uuid->0;
            assert forall|id: u64| #[trigger]
                after.lobbies.dom().contains(id) implies after.lobby_in_order(id) by {
                assert(before.lobby_in_order(id));
                assert forall|member: u128| #[trigger]
                    after.lobbies[id].members.contains(member) implies after.lobby_of(member)
                    == Some(id) by {
                    assert(before.lobby_of(member) == Some(id));
                }
            }
            assert forall|member: u128| #![trigger after.lobby_of(member)]
                after.connection_in_order(member) by {
                assert(before.connection_in_order(member));
            }
        },
        (ClientMessage::SetDisplayName { display_name }, Some(uuid)) => {
            assert(after.lobbies.dom() =~= before.lobbies.dom());
            lemma_same_membership_keeps_order(before, after);
        },
        (ClientMessage::DeclareCapabilities { capabilities }, Some(uuid)) => {
            lemma_same_membership_keeps_order(before, after);
        },
        (ClientMessage::CreateLobby { max_players }, Some(uuid)) => {
            if after != before {
                let (id, code) = choose|id: u64, code: Seq<char>|
                    {
                        &&& #[trigger] before.id_is_free(id)
                        &&& #[trigger] before.code_is_free(code)
                        &&& after == lobby::created(before, uuid, max_players, id, code)
                    };
                law_create_keeps_order(before, uuid, max_players, id, code);
            }
        },
        (ClientMessage::JoinLobby { lobby_id }, Some(uuid)) => {
            if lobby::join_refusal(before, uuid, lobby_id) is None {
                law_join_keeps_order(before, uuid, lobby_id);
            }
        },
        (ClientMessage::JoinLobbyByCode { code }, Some(uuid)) => {
            let upper = lobby::upper_case(code@);
            if session.limiter.lobby_ops.has_token(now) && lobby::code_refusal(
                before,
                uuid,
                upper,
            ) is None {
                law_join_keeps_order(before, uuid, before.codes[upper]);
            }
        },
        (ClientMessage::LeaveLobby, Some(uuid)) => {
            law_depart_keeps_order(before, uuid, Departure::Leave);
        },
        (ClientMessage::CloseLobby, Some(uuid)) => {
            law_depart_keeps_order(before, uuid, Departure::Close);
        },
        (ClientMessage::Signal { receiver_uuid, data }, Some(uuid)) => {
            lemma_same_membership_keeps_order(before, after);
        },
        _ => {},
    }
}

/// Names, capabilities and queued messages have no part in the order.
proof fn lemma_same_membership_keeps_order(before: ServerView, after: ServerView)
    requires
        before.well_formed(),
        after.codes == before.codes,
        after.lobbies.dom() == before.lobbies.dom(),
        forall|id: u64| #[trigger]
            before.lobbies.dom().contains(id) ==> before.lobbies[id] == (LobbyView {
                host_name: before.lobbies[id].host_name,
                ..after.lobbies[id]
            }),
        forall|uuid: u128| #[trigger] after.lobby_of(uuid) == before.lobby_of(uuid),
    ensures
        after.well_formed(),
{
    assert forall|id: u64| #[trigger] after.lobbies.dom().contains(id) implies after.lobby_in_order(
        id,
    ) by {
        assert(before.lobby_in_order(id));
        assert forall|uuid: u128| #[trigger]
            after.lobbies[id].members.contains(uuid) implies after.lobby_of(uuid) == Some(id) by {
            assert(before.lobbies[id].members.contains(uuid));
            assert(before.lobby_of(uuid) == Some(id));
        }
    }
    assert forall|uuid: u128| #![trigger after.lobby_of(uuid)] after.connection_in_order(uuid) by {
        assert(before.connection_in_order(uuid));
    }
}

/// A host that leaves a lobby it can hand on leaves it, under the same id and code, to the member
/// who joined earliest among those that can be told so; everyone who stays can be told, in the
/// order they joined; and everyone else is in no lobby.
pub proof fn law_handed_on_lobby_survives(server: ServerView, host_uuid: u128, id: u64)
    requires
        server.well_formed(),
        server.lobby_of(host_uuid) == Some(id),
        server.lobbies[id].host_uuid == host_uuid,
        server.lobbies[id].host_migration,
        lobby::followers(server, state::without(server.lobbies[id].members, host_uuid)).len() > 0,
    ensures
        ({
            let before = server.lobbies[id];
            let after = lobby::departed(server, host_uuid, Departure::Leave);
            let heirs = lobby::followers(server, state::without(before.members, host_uuid));
            &&& after.codes == server.codes
            &&& after.lobbies.dom() == server.lobbies.dom()
            &&& after.lobbies[id].lobby_id == before.lobby_id
            &&& after.lobbies[id].code == before.code
            &&& after.lobbies[id].max_players == before.max_players
            &&& after.lobbies[id].host_migration
            &&& after.lobbies[id].members == heirs
            &&& after.lobbies[id].host_uuid == heirs[0]
            &&& after.lobbies[id].host_name == server.connections[heirs[0]].display_name
            &&& forall|uuid: u128|
                before.members.contains(uuid) && !heirs.contains(uuid)
                    ==> #[trigger] after.lobby_of(uuid) is None
        }),
{
    let before = server.lobbies[id];
    let rest = state::without(before.members, host_uuid);
    let gone = server.placed(host_uuid, None);
    let after = lobby::departed(server, host_uuid, Departure::Leave);
    assert(server.connection_in_order(host_uuid));
    assert(server.lobby_in_order(id));
    lemma_departed_parts(server, host_uuid, Departure::Leave);
    lemma_filtered(before.members, state::all_but(host_uuid));
    lemma_filtered(rest, lobby::can_follow(server));
    lemma_filtered(rest, lobby::can_follow(gone));
    lemma_filtered(rest, lobby::cannot_follow(gone));
    assert(lobby::can_follow(gone) =~= lobby::can_follow(server));
    lobby::lemma_disconnected_keeps(
        gone,
        lobby::stranded(gone, rest),
        lobby::end_reason(Departure::Leave),
    );
    let heirs = lobby::followers(server, rest);
    assert(heirs.contains(heirs[0]));
    assert(after.lobbies.dom() =~= server.lobbies.dom());
}

/// A lobby its host closes is gone, with its code, and everyone who was in it is in none.
pub proof fn law_closed_lobby_is_gone(server: ServerView, host_uuid: u128, id: u64)
    requires
        server.well_formed(),
        server.lobby_of(host_uuid) == Some(id),
        server.lobbies[id].host_uuid == host_uuid,
    ensures
        ({
            let after = lobby::departed(server, host_uuid, Departure::Close);
            &&& after.lobbies == server.lobbies.remove(id)
            &&& after.codes == server.codes.remove(server.lobbies[id].code)
            &&& forall|uuid: u128|
                server.lobbies[id].members.contains(uuid) ==> #[trigger] after.lobby_of(
                    uuid,
                ) is None
        }),
{
    let before = server.lobbies[id];
    let rest = state::without(before.members, host_uuid);
    let gone = server.placed(host_uuid, None);
    assert(server.connection_in_order(host_uuid));
    lemma_departed_parts(server, host_uuid, Departure::Close);
    lemma_filtered(before.members, state::all_but(host_uuid));
    lobby::lemma_disconnected_keeps(
        ServerView {
            lobbies: gone.lobbies.remove(id),
            codes: gone.codes.remove(before.code),
            ..gone
        },
        rest,
        lobby::end_reason(Departure::Close),
    );
}

/// Nobody but its host can close a lobby.
pub proof fn law_only_the_host_closes(server: ServerView, uuid: u128)
    requires
        server.well_formed(),
        server.lobby_of(uuid) matches Some(id) ==> server.lobbies[id].host_uuid != uuid,
    ensures
        lobby::departed(server, uuid, Departure::Close) == server,
{
    assert(server.connection_in_order(uuid));
}

/// Leaving undoes joining: the lobbies, the codes and the connections are as they were.
pub proof fn law_leaving_undoes_joining(server: ServerView, uuid: u128, id: u64)
    requires
        server.well_formed(),
        lobby::join_refusal(server, uuid, id) is None,
    ensures
        ({
            let after = lobby::departed(lobby::joined(server, uuid, id), uuid, Departure::Leave);
            &&& after.lobbies == server.lobbies
            &&& after.codes == server.codes
            &&& after.connections == server.connections
        }),
{
    let before = server.lobbies[id];
    let joined = lobby::joined(server, uuid, id);
    let members = before.members.push(uuid);
    let placed = ServerView {
        lobbies: server.lobbies.insert(id, LobbyView { members, ..before }),
        ..server
    }.placed(uuid, Some(id));
    law_join_keeps_order(server, uuid, id);
    lobby::lemma_queued_all_keeps(
        placed,
        state::without(members, uuid),
        ServerMessageView::PlayerJoined { player_uuid: uuid },
    );
    assert(server.lobby_in_order(id));
    assert(server.lobby_of(uuid) is None);
    assert(!before.members.contains(uuid));
    assert(joined.lobby_of(uuid) == Some(id));
    lemma_departed_parts(joined, uuid, Departure::Leave);
    lemma_filter_all(before.members, state::all_but(uuid));
    assert(state::without(members, uuid) == before.members) by {
        reveal(Seq::filter);
        assert(members.drop_last() =~= before.members);
    }
    let after = lobby::departed(joined, uuid, Departure::Leave);
    assert(after.lobbies =~= server.lobbies);
    assert(after.codes =~= server.codes);
    assert(after.connections =~= server.connections);
}

/// Nothing is lost from a list all of which passes.
pub(crate) proof fn lemma_filter_all(members: Seq<u128>, keep: spec_fn(u128) -> bool)
    requires
        forall|uuid: u128| #[trigger] members.contains(uuid) ==> keep(uuid),
    ensures
        members.filter(keep) == members,
    decreases members.len(),
{
    reveal(Seq::filter);
    if members.len() > 0 {
        let shorter = members.drop_last();
        assert forall|uuid: u128| #[trigger] shorter.contains(uuid) implies keep(uuid) by {
            let i = choose|i: int| 0 <= i < shorter.len() && shorter[i] == uuid;
            assert(members[i] == uuid);
            assert(members.contains(uuid));
        }
        lemma_filter_all(shorter, keep);
        assert(members.contains(members.last()));
        assert(members =~= shorter.push(members.last()));
    } else {
        assert(members.filter(keep) =~= members);
    }
}

/// A lobby that was just created is found by its code, by anyone who may enter a lobby, as long
/// as it was made for more than its host.
pub proof fn law_created_lobby_is_found(
    server: ServerView,
    host_uuid: u128,
    max_players: u32,
    id: u64,
    code: Seq<char>,
    uuid: u128,
)
    requires
        server.well_formed(),
        lobby::entry_refusal(server, host_uuid) is None,
        server.id_is_free(id),
        server.code_is_free(code),
        uuid != host_uuid,
        lobby::entry_refusal(server, uuid) is None,
        max_players != 1,
    ensures
        ({
            let after = lobby::created(server, host_uuid, max_players, id, code);
            &&& after.codes[code] == id
            &&& lobby::code_refusal(after, uuid, code) is None
        }),
{
}

/// Signals are carried both ways or not at all.
pub proof fn law_relay_is_symmetric(server: ServerView, one: u128, other: u128)
    ensures
        ws_handler::relays(server, one, other) == ws_handler::relays(server, other, one),
{
}

/// A signal is carried only between two members of one lobby, one of whom hosts it.
pub proof fn law_relay_stays_in_the_lobby(server: ServerView, from: u128, to: u128)
    requires
        server.well_formed(),
        ws_handler::relays(server, from, to),
    ensures
        exists|id: u64|
            {
                &&& #[trigger] server.lobbies.dom().contains(id)
                &&& server.lobbies[id].members.contains(from)
                &&& server.lobbies[id].members.contains(to)
                &&& server.lobbies[id].host_uuid == from || server.lobbies[id].host_uuid == to
            },
{
    assert(server.connection_in_order(from));
    assert(server.connection_in_order(to));
}

/// What `recipients` get: `message`, each of them that is connected, in order.
pub open spec fn copies(
    server: ServerView,
    recipients: Seq<u128>,
    message: ServerMessageView,
) -> Seq<OutgoingView> {
    recipients.filter(|uuid: u128| server.connections.dom().contains(uuid)).map_values(
        |to: u128| OutgoingView { to, message },
    )
}

/// Queueing for several is queueing one copy for each that is connected, behind what was queued.
pub proof fn law_everyone_connected_is_told(
    server: ServerView,
    recipients: Seq<u128>,
    message: ServerMessageView,
)
    ensures
        server.queued_all(recipients, message).outbox == server.outbox + copies(
            server,
            recipients,
            message,
        ),
    decreases recipients.len(),
{
    reveal(Seq::filter);
    if recipients.len() > 0 {
        let shorter = recipients.drop_last();
        law_everyone_connected_is_told(server, shorter, message);
        lobby::lemma_queued_all_keeps(server, shorter, message);
        let told = server.queued_all(shorter, message);
        if server.connections.dom().contains(recipients.last()) {
            assert(copies(server, recipients, message) =~= copies(server, shorter, message).push(
                OutgoingView { to: recipients.last(), message },
            ));
            assert(server.queued_all(recipients, message).outbox =~= server.outbox + copies(
                server,
                recipients,
                message,
            ));
        }
    } else {
        assert(server.outbox =~= server.outbox + copies(server, recipients, message));
    }
}

/// Whether `sent` is something its recipient can decode: what belongs to host migration goes only
/// to who declared it.
pub open spec fn decodable(server: ServerView, sent: OutgoingView) -> bool {
    sent.message is LobbyMigratable || sent.message is HostChanged ==> server.declares(
        sent.to,
        CAPABILITY_HOST_MIGRATION,
    )
}

/// Whether what `after` has queued beyond what `before` had is decodable, and nothing that was
/// queued is lost.
pub open spec fn queues_decodable(server: ServerView, before: ServerView, after: ServerView) -> bool {
    &&& before.outbox.len() <= after.outbox.len()
    &&& forall|i: int|
        0 <= i < before.outbox.len() ==> #[trigger] after.outbox[i] == before.outbox[i]
    &&& forall|i: int|
        before.outbox.len() <= i < after.outbox.len() ==> decodable(
            server,
            #[trigger] after.outbox[i],
        )
}

proof fn lemma_all_decodable(
    server: ServerView,
    before: ServerView,
    recipients: Seq<u128>,
    message: ServerMessageView,
)
    requires
        forall|uuid: u128| #[trigger]
            recipients.contains(uuid) ==> decodable(server, OutgoingView { to: uuid, message }),
    ensures
        queues_decodable(server, before, before.queued_all(recipients, message)),
    decreases recipients.len(),
{
    if recipients.len() > 0 {
        let shorter = recipients.drop_last();
        assert forall|uuid: u128| #[trigger] shorter.contains(uuid) implies decodable(
            server,
            OutgoingView { to: uuid, message },
        ) by {
            let i = choose|i: int| 0 <= i < shorter.len() && shorter[i] == uuid;
            assert(recipients[i] == uuid);
            assert(recipients.contains(uuid));
        }
        lemma_all_decodable(server, before, shorter, message);
        assert(recipients.contains(recipients.last()));
    }
}

proof fn lemma_disconnected_decodable(
    server: ServerView,
    before: ServerView,
    members: Seq<u128>,
    reason: Seq<char>,
)
    ensures
        queues_decodable(server, before, lobby::disconnected(before, members, reason)),
    decreases members.len(),
{
    if members.len() > 0 {
        lemma_disconnected_decodable(server, before, members.drop_last(), reason);
    }
}

proof fn lemma_parted_decodable(
    server: ServerView,
    before: ServerView,
    leaver: u128,
    peers: Seq<u128>,
)
    ensures
        queues_decodable(server, before, lobby::parted(before, leaver, peers)),
    decreases peers.len(),
{
    if peers.len() > 0 {
        lemma_parted_decodable(server, before, leaver, peers.drop_last());
    }
}

/// Creating a lobby queues nothing that its recipient could not decode.
pub proof fn law_create_is_decodable(
    server: ServerView,
    host_uuid: u128,
    max_players: u32,
    id: u64,
    code: Seq<char>,
)
    requires
        lobby::entry_refusal(server, host_uuid) is None,
    ensures
        queues_decodable(
            server,
            server,
            lobby::created(server, host_uuid, max_players, id, code),
        ),
{
}

/// Joining a lobby queues nothing that its recipient could not decode.
pub proof fn law_join_is_decodable(server: ServerView, uuid: u128, id: u64)
    requires
        lobby::join_refusal(server, uuid, id) is None,
    ensures
        queues_decodable(server, server, lobby::joined(server, uuid, id)),
{
    let before = server.lobbies[id];
    let members = before.members.push(uuid);
    let placed = ServerView {
        lobbies: server.lobbies.insert(id, LobbyView { members, ..before }),
        ..server
    }.placed(uuid, Some(id));
    lemma_all_decodable(
        server,
        placed,
        state::without(members, uuid),
        ServerMessageView::PlayerJoined { player_uuid: uuid },
    );
    lobby::lemma_queued_all_keeps(
        placed,
        state::without(members, uuid),
        ServerMessageView::PlayerJoined { player_uuid: uuid },
    );
}

/// Leaving and closing queue nothing that its recipient could not decode.
pub proof fn law_depart_is_decodable(server: ServerView, uuid: u128, departure: Departure)
    requires
        server.well_formed(),
    ensures
        queues_decodable(server, server, lobby::departed(server, uuid, departure)),
{
    if server.lobby_of(uuid) is Some {
        let id = server.lobby_of(uuid)->0;
        assert(server.connection_in_order(uuid));
        let lobby = server.lobbies[id];
        let rest = state::without(lobby.members, uuid);
        let gone = server.placed(uuid, None);
        if lobby.host_uuid != uuid {
            let told = ServerView {
                lobbies: gone.lobbies.insert(id, LobbyView { members: rest, ..lobby }),
                ..gone
            };
            let message = ServerMessageView::PlayerLeft { player_uuid: uuid };
            lemma_all_decodable(server, told, rest, message);
            lemma_parted_decodable(server, told.queued_all(rest, message), uuid, rest);
        } else if lobby::hands_on(gone, lobby, rest, departure) {
            let heir = lobby::inherited(gone, lobby, rest);
            let reason = lobby::end_reason(Departure::Leave);
            let released = lobby::disconnected(gone, lobby::stranded(gone, rest), reason);
            lemma_disconnected_decodable(server, gone, lobby::stranded(gone, rest), reason);
            lemma_filtered(rest, lobby::can_follow(gone));
            let message = ServerMessageView::HostChanged {
                lobby_id: heir.lobby_id,
                previous_host: uuid,
                new_host: heir.host_uuid,
                code: heir.code,
                members: heir.members,
            };
            lemma_all_decodable(
                server,
                ServerView { lobbies: gone.lobbies.insert(id, heir), ..released },
                heir.members,
                message,
            );
            lemma_parted_decodable(
                server,
                lobby::handed_over(gone, id, uuid, rest),
                uuid,
                rest,
            );
        } else {
            lemma_disconnected_decodable(
                server,
                ServerView {
                    lobbies: gone.lobbies.remove(id),
                    codes: gone.codes.remove(lobby.code),
                    ..gone
                },
                rest,
                lobby::end_reason(departure),
            );
            lemma_parted_decodable(
                server,
                lobby::ended(gone, id, rest, departure),
                uuid,
                rest,
            );
        }
    }
}

} // verus!
