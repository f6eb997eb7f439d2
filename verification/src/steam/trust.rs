//! Whom a peer trusts, and whom it takes for its host.

use vstd::prelude::*;

use super::world::{LobbyId, SteamCache, SteamId};

verus! {

/// What a client should do about the lobby owner Steam names this frame.
#[derive(Clone, Copy, Debug, PartialEq, Eq, Structural)]
pub enum OwnerChange {
    /// The owner is still the pinned host, or Steam names nobody.
    Unchanged,
    /// Steam made this peer the owner: it hosts now.
    Promote,
    /// Steam made another member the owner: follow it.
    Follow(SteamId),
}

/// What the owner Steam names means to a client that pinned `pinned`.
pub open spec fn change_of_owner(pinned: SteamId, owner: SteamId, local: SteamId) -> OwnerChange {
    if owner == SteamId(0) || owner == pinned {
        OwnerChange::Unchanged
    } else if owner == local {
        OwnerChange::Promote
    } else {
        OwnerChange::Follow(owner)
    }
}

/// Compare the owner Steam names with the host this client pinned.
///
/// An owner of 0 means Steam's cache has no answer for the lobby right now (it is being left, or
/// its data has not arrived), not that nobody owns it, so it changes nothing.
pub fn owner_change(pinned: SteamId, owner: SteamId, local: SteamId) -> (change: OwnerChange)
    ensures
        change == change_of_owner(pinned, owner, local),
{
    if owner.raw() == 0 || owner == pinned {
        OwnerChange::Unchanged
    } else if owner == local {
        OwnerChange::Promote
    } else {
        OwnerChange::Follow(owner)
    }
}

/// Whether a host was replaced: Steam names somebody else as the owner of the lobby it hosts.
///
/// It happens only when Steam dropped this peer's connection and handed the lobby to a member.
/// The members follow the new owner, so this peer's session is over.
pub fn replaced_as_host(owner: SteamId, local: SteamId) -> (replaced: bool)
    ensures
        replaced == (owner != SteamId(0) && owner != local),
{
    owner.raw() != 0 && owner != local
}

/// Which side of the lobby this peer is on, for the trust decisions below.
#[derive(Clone, Copy, Debug, PartialEq, Eq, Structural)]
pub enum PeerRole {
    Host,
    Client,
}

fn is_member(members: &[SteamId], user: SteamId) -> (is: bool)
    ensures
        is == members@.contains(user),
{
    let mut i: usize = 0;
    while i < members.len()
        invariant
            i <= members@.len(),
            forall|j: int| 0 <= j < i ==> members@[j] != user,
        decreases members.len() - i,
    {
        if members[i] == user {
            return true;
        }
        i += 1;
    }
    false
}

/// Whether to open a P2P session with `requester`: only a member of the lobby this peer is in.
///
/// Anyone who knows a SteamID can ask Steam to open a messages session with it; the lobby is
/// what says who is actually part of this game. With no lobby (`members` empty) nobody is.
pub fn accept_session_request(members: &[SteamId], requester: SteamId) -> (accept: bool)
    ensures
        accept == members@.contains(requester),
{
    is_member(members, requester)
}

/// Whether a session request is accepted.
pub open spec fn accepts(
    steam: SteamCache,
    current_lobby: Option<LobbyId>,
    requester: Option<SteamId>,
) -> bool {
    match (current_lobby, requester) {
        (Some(lobby), Some(requester)) => steam.members(lobby).contains(requester),
        _ => false,
    }
}

/// Whether a session request is accepted by a peer that is in `current_lobby`.
pub fn on_session_request(
    steam: &SteamCache,
    current_lobby: Option<LobbyId>,
    requester: Option<SteamId>,
) -> (accept: bool)
    ensures
        accept == accepts(*steam, current_lobby, requester),
{
    match (current_lobby, requester) {
        (Some(lobby), Some(requester)) => {
            let members = steam.lobby_members(lobby);
            accept_session_request(members.as_slice(), requester)
        },
        _ => false,
    }
}

/// Whether a packet from `from` is decoded.
pub open spec fn reads(
    role: PeerRole,
    lobby_owner: Option<SteamId>,
    members: Seq<SteamId>,
    from: SteamId,
) -> bool {
    match role {
        PeerRole::Host => members.contains(from),
        PeerRole::Client => lobby_owner == Some(from),
    }
}

/// Whether a packet from `from` should be decoded at all.
///
/// A host takes packets from its lobby's members — it is about to open a seat for whoever sends
/// one, so a stranger must not get that far. A client takes packets from the one peer it joined,
/// `lobby_owner`; other members talk to it through the host's relay, never directly, so anything
/// direct from them is dropped unread. A client that does not yet know its host trusts nobody.
pub fn accept_packet(
    role: PeerRole,
    lobby_owner: Option<SteamId>,
    members: &[SteamId],
    from: SteamId,
) -> (accept: bool)
    ensures
        accept == reads(role, lobby_owner, members@, from),
{
    match role {
        PeerRole::Host => is_member(members, from),
        PeerRole::Client => match lobby_owner {
            Some(owner) => owner == from,
            None => false,
        },
    }
}

/// Once a client follows a new owner, that owner is read and nobody else: the old host's packets
/// are dropped from then on.
pub proof fn law_only_the_owner_followed_is_read(
    pinned: SteamId,
    owner: SteamId,
    local: SteamId,
    members: Seq<SteamId>,
    from: SteamId,
)
    requires
        change_of_owner(pinned, owner, local) == OwnerChange::Follow(owner),
    ensures
        reads(PeerRole::Client, Some(owner), members, from) <==> from == owner,
        !reads(PeerRole::Client, Some(owner), members, pinned),
{
}

/// Members who pinned the same host and hear of the same owner agree on who hosts: one of them at
/// most is promoted, and the others follow that one.
pub proof fn law_members_agree_on_the_successor(
    pinned: SteamId,
    owner: SteamId,
    one: SteamId,
    other: SteamId,
)
    requires
        change_of_owner(pinned, owner, one) == OwnerChange::Promote,
        one != other,
    ensures
        change_of_owner(pinned, owner, other) == OwnerChange::Follow(one),
{
}

/// A host learns that it was replaced exactly when its clients turn from it.
pub proof fn law_a_replaced_host_is_left(host: SteamId, owner: SteamId, client: SteamId)
    ensures
        (change_of_owner(host, owner, client) != OwnerChange::Unchanged) <==> (owner != SteamId(0)
            && owner != host),
{
}

} // verus!
