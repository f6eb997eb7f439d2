//! The lobbies that friends are in.
//!
//! Found by looking at what friends play, and published once Steam has said of each how many are
//! in it.

use vstd::prelude::*;

use super::world::LobbyId;
use crate::protocol::LobbyInfo;

verus! {

/// How many players fit a lobby.
pub const MAX_LOBBY_PLAYERS: u32 = 8;

/// A friend, and what they play.
#[derive(Debug)]
pub struct FriendGame {
    pub name: String,
    pub app_id: u32,
    /// The lobby they are in; zero if in none.
    pub lobby: LobbyId,
}

/// A lobby that a friend is in.
#[derive(Debug, PartialEq, Eq)]
pub struct SteamFriendLobbySummary {
    pub lobby_id: LobbyId,
    pub host_name: String,
    /// How many are in it; zero as long as Steam has not said.
    pub member_count: usize,
}

/// Whether a friend is in a lobby of this game.
pub open spec fn is_joinable(friend: FriendGame, app_id: u32) -> bool {
    friend.app_id == app_id && friend.lobby != LobbyId(0)
}

/// Whether a lobby is among `summaries`.
pub open spec fn is_listed(summaries: Seq<SteamFriendLobbySummary>, lobby: LobbyId) -> bool {
    exists|i: int| 0 <= i < summaries.len() && (#[trigger] summaries[i]).lobby_id == lobby
}

/// The lobbies that friends are in, each once, under the name of the first friend found in it.
pub open spec fn lobbies_of(friends: Seq<FriendGame>, app_id: u32) -> Seq<SteamFriendLobbySummary>
    decreases friends.len(),
{
    if friends.len() == 0 {
        Seq::empty()
    } else {
        let before = lobbies_of(friends.drop_last(), app_id);
        let friend = friends.last();
        if is_joinable(friend, app_id) && !is_listed(before, friend.lobby) {
            before.push(
                SteamFriendLobbySummary {
                    lobby_id: friend.lobby,
                    host_name: friend.name,
                    member_count: 0,
                },
            )
        } else {
            before
        }
    }
}

fn listed(summaries: &Vec<SteamFriendLobbySummary>, lobby: LobbyId) -> (listed: bool)
    ensures
        listed == is_listed(summaries@, lobby),
{
    let mut i: usize = 0;
    while i < summaries.len()
        invariant
            i <= summaries@.len(),
            forall|j: int| 0 <= j < i ==> (#[trigger] summaries@[j]).lobby_id != lobby,
        decreases summaries.len() - i,
    {
        if summaries[i].lobby_id == lobby {
            return true;
        }
        i += 1;
    }
    false
}

/// The lobbies that friends are in, each once.
pub fn find_friend_lobbies(friends: Vec<FriendGame>, app_id: u32) -> (pending: Vec<
    SteamFriendLobbySummary,
>)
    ensures
        pending@ == lobbies_of(friends@, app_id),
{
    let ghost all = friends@;
    let mut pending: Vec<SteamFriendLobbySummary> = Vec::new();
    assert(all.take(0) =~= Seq::<FriendGame>::empty());
    for friend in iter: friends
        invariant
            iter.seq() == all,
            pending@ == lobbies_of(all.take(iter.index() as int), app_id),
    {
        proof {
            assert(all.take(iter.index() + 1).drop_last() =~= all.take(iter.index() as int));
            assert(all.take(iter.index() + 1).last() == friend);
        }
        if friend.app_id == app_id && friend.lobby.raw() != 0 && !listed(&pending, friend.lobby) {
            pending.push(
                SteamFriendLobbySummary {
                    lobby_id: friend.lobby,
                    host_name: friend.name,
                    member_count: 0,
                },
            );
        }
    }
    assert(all.take(all.len() as int) =~= all);
    pending
}

/// What looking for friends' lobbies comes to.
#[derive(Debug, PartialEq, Eq)]
pub enum Discovery {
    /// A list is there, or on its way: nothing is done.
    Idle,
    /// No friend is in a lobby of this game: the list is published at once, and is empty.
    Publish,
    /// Steam is asked of each of these, in order, and the list waits for its answers.
    Ask(Vec<SteamFriendLobbySummary>),
}

/// Whether `discovery` is what looking for friends' lobbies comes to.
pub open spec fn is_found(
    listed: bool,
    waiting: bool,
    friends: Seq<FriendGame>,
    app_id: u32,
    discovery: Discovery,
) -> bool {
    if listed || waiting {
        discovery is Idle
    } else if lobbies_of(friends, app_id).len() == 0 {
        discovery is Publish
    } else {
        discovery matches Discovery::Ask(pending) && pending@ == lobbies_of(friends, app_id)
    }
}

/// Look for the lobbies that friends are in, unless a list of them is there or waits for Steam.
pub fn populate_friend_lobbies(
    listed: bool,
    waiting: bool,
    friends: Vec<FriendGame>,
    app_id: u32,
) -> (discovery: Discovery)
    ensures
        is_found(listed, waiting, friends@, app_id, discovery),
{
    if listed || waiting {
        return Discovery::Idle;
    }
    let pending = find_friend_lobbies(friends, app_id);
    if pending.len() == 0 {
        Discovery::Publish
    } else {
        Discovery::Ask(pending)
    }
}

/// Whether the list is to be made anew: it is dropped, and what was published of it is cleared, so
/// that looking for lobbies starts over. One that waits for Steam is waited for.
pub fn refresh_lobbies(requests: usize) -> (refresh: bool)
    ensures
        refresh == (requests > 0),
{
    requests > 0
}

/// Whether Steam has said of every lobby how many are in it.
pub open spec fn all_hydrated(summaries: Seq<SteamFriendLobbySummary>) -> bool {
    forall|i: int| 0 <= i < summaries.len() ==> (#[trigger] summaries[i]).member_count > 0
}

/// A lobby other than `gone`.
pub open spec fn other_than(gone: LobbyId) -> spec_fn(SteamFriendLobbySummary) -> bool {
    |summary: SteamFriendLobbySummary| summary.lobby_id != gone
}

/// The lobbies after Steam's word on one: it is dropped if there is nothing to be had of it, and
/// otherwise its members are counted.
pub open spec fn updated(
    summaries: Seq<SteamFriendLobbySummary>,
    lobby: LobbyId,
    success: bool,
    member_count: usize,
) -> Seq<SteamFriendLobbySummary> {
    if !success {
        summaries.filter(other_than(lobby))
    } else {
        summaries.map_values(
            |summary: SteamFriendLobbySummary|
                if summary.lobby_id == lobby {
                    SteamFriendLobbySummary { member_count, ..summary }
                } else {
                    summary
                },
        )
    }
}

/// Take in Steam's word on a lobby: whether all are known by now, and can be published.
pub fn hydrate_friend_lobbies(
    pending: Vec<SteamFriendLobbySummary>,
    lobby: LobbyId,
    success: bool,
    member_count: usize,
) -> (hydrated: (Vec<SteamFriendLobbySummary>, bool))
    ensures
        hydrated.0@ == updated(pending@, lobby, success, member_count),
        hydrated.1 == all_hydrated(hydrated.0@),
{
    let ghost all = pending@;
    let mut rest: Vec<SteamFriendLobbySummary> = Vec::new();
    let mut known = true;
    proof {
        reveal(Seq::filter);
        assert(rest@ =~= updated(all.take(0), lobby, success, member_count));
    }
    for summary in iter: pending
        invariant
            iter.seq() == all,
            rest@ == updated(all.take(iter.index() as int), lobby, success, member_count),
            known == all_hydrated(rest@),
    {
        let ghost before = rest@;
        proof {
            reveal(Seq::filter);
            assert(all.take(iter.index() + 1).drop_last() =~= all.take(iter.index() as int));
            assert(all.take(iter.index() + 1).last() == summary);
        }
        if summary.lobby_id == lobby {
            if success {
                known = known && member_count > 0;
                rest.push(
                    SteamFriendLobbySummary {
                        lobby_id: summary.lobby_id,
                        host_name: summary.host_name,
                        member_count,
                    },
                );
            }
        } else {
            known = known && summary.member_count > 0;
            rest.push(summary);
        }
        proof {
            assert(rest@ =~= updated(
                all.take(iter.index() + 1),
                lobby,
                success,
                member_count,
            ));
            if rest@.len() > before.len() {
                lemma_all_hydrated_pushed(before, rest@.last());
                assert(rest@ =~= before.push(rest@.last()));
            }
        }
    }
    assert(all.take(all.len() as int) =~= all);
    (rest, known)
}

proof fn lemma_all_hydrated_pushed(
    summaries: Seq<SteamFriendLobbySummary>,
    last: SteamFriendLobbySummary,
)
    ensures
        all_hydrated(summaries.push(last)) == (all_hydrated(summaries) && last.member_count > 0),
{
    let longer = summaries.push(last);
    if all_hydrated(longer) {
        assert forall|i: int| 0 <= i < summaries.len() implies (
        #[trigger] summaries[i]).member_count > 0 by {
            assert(longer[i] == summaries[i]);
        }
        assert(longer[summaries.len() as int] == last);
    }
}

/// Whether `public` is a friend's lobby in the shape every lobby list has.
pub open spec fn is_shown_as(lobby: SteamFriendLobbySummary, public: LobbyInfo) -> bool {
    &&& public.lobby_id == lobby.lobby_id.0
    &&& public.code@ == Seq::<char>::empty()
    &&& public.host_name@ == lobby.host_name@
    &&& public.player_count == lobby.member_count as u32
    &&& public.max_players == MAX_LOBBY_PLAYERS
}

/// The friends' lobbies in the shape every lobby list has: there are no join codes, and the id is
/// the lobby's raw bits.
pub fn publish_public_lobbies(lobbies: &Vec<SteamFriendLobbySummary>) -> (public: Vec<LobbyInfo>)
    ensures
        public@.len() == lobbies@.len(),
        forall|i: int|
            0 <= i < public@.len() ==> is_shown_as(lobbies@[i], #[trigger] public@[i]),
{
    let mut public: Vec<LobbyInfo> = Vec::new();
    let mut i: usize = 0;
    while i < lobbies.len()
        invariant
            i <= lobbies@.len(),
            public@.len() == i,
            forall|j: int| 0 <= j < i ==> is_shown_as(lobbies@[j], #[trigger] public@[j]),
        decreases lobbies.len() - i,
    {
        let player_count: u32 = #[verifier::truncate] (lobbies[i].member_count as u32);
        public.push(
            LobbyInfo {
                lobby_id: lobbies[i].lobby_id.raw(),
                code: String::new(),
                host_name: lobbies[i].host_name.clone(),
                player_count,
                max_players: MAX_LOBBY_PLAYERS,
            },
        );
        i += 1;
    }
    public
}

/// However many friends are in it, a lobby is listed once.
pub proof fn law_a_lobby_is_listed_once(friends: Seq<FriendGame>, app_id: u32, i: int, j: int)
    requires
        0 <= i < j < lobbies_of(friends, app_id).len(),
    ensures
        lobbies_of(friends, app_id)[i].lobby_id != lobbies_of(friends, app_id)[j].lobby_id,
    decreases friends.len(),
{
    if friends.len() > 0 {
        let before = lobbies_of(friends.drop_last(), app_id);
        if j < before.len() {
            law_a_lobby_is_listed_once(friends.drop_last(), app_id, i, j);
        } else {
            assert(before[i].lobby_id != friends.last().lobby);
        }
    }
}

} // verus!
