//! The server's concurrent maps.
//!
//! `dashmap::DashMap` is changed through shared references, which a value known to the verifier
//! must not be. So every operation here that changes a map asks for it exclusively, and the server
//! keeps its maps in private fields.

use dashmap::DashMap;
use vstd::prelude::*;

use super::state::{ConnectionHandle, ConnectionView, LobbyState, LobbyView};

verus! {

#[verifier::external_type_specification]
#[verifier::external_body]
#[verifier::reject_recursive_types(K)]
#[verifier::reject_recursive_types(V)]
#[verifier::reject_recursive_types(S)]
pub struct ExDashMap<K, V, S>(DashMap<K, V, S>);

/// What a map of lobbies holds.
pub uninterp spec fn lobby_entries(map: DashMap<u64, LobbyState>) -> Map<u64, LobbyView>;

/// What a map of lobby codes holds.
pub uninterp spec fn code_entries(map: DashMap<String, u64>) -> Map<Seq<char>, u64>;

/// What a map of connections holds.
pub uninterp spec fn connection_entries(map: DashMap<u128, ConnectionHandle>) -> Map<
    u128,
    ConnectionView,
>;

/// `DashMap::new` for lobbies: the map starts out empty.
#[verifier::external_body]
pub(crate) fn new_lobbies() -> (map: DashMap<u64, LobbyState>)
    ensures
        lobby_entries(map).dom() =~= Set::empty(),
{
    DashMap::new()
}

/// `DashMap::new` for lobby codes: the map starts out empty.
#[verifier::external_body]
pub(crate) fn new_codes() -> (map: DashMap<String, u64>)
    ensures
        code_entries(map).dom() =~= Set::empty(),
{
    DashMap::new()
}

/// `DashMap::new` for connections: the map starts out empty.
#[verifier::external_body]
pub(crate) fn new_connections() -> (map: DashMap<u128, ConnectionHandle>)
    ensures
        connection_entries(map).dom() =~= Set::empty(),
{
    DashMap::new()
}

/// `DashMap::get` on lobbies: a copy of the value under `id`, if there is one.
#[verifier::external_body]
pub(crate) fn get_lobby(map: &DashMap<u64, LobbyState>, id: u64) -> (found: Option<LobbyState>)
    ensures
        found is Some <==> lobby_entries(*map).dom().contains(id),
        found matches Some(lobby) ==> lobby@ == lobby_entries(*map)[id],
{
    map.get(&id).map(|entry| entry.value().clone())
}

/// `DashMap::get` on lobby codes: the id under `code`, if there is one. Keys are equal when their
/// characters are.
#[verifier::external_body]
pub(crate) fn get_code(map: &DashMap<String, u64>, code: &String) -> (found: Option<u64>)
    ensures
        found is Some <==> code_entries(*map).dom().contains(code@),
        found matches Some(id) ==> id == code_entries(*map)[code@],
{
    map.get(code).map(|entry| *entry.value())
}

/// `DashMap::get` on connections: a copy of the value under `uuid`, if there is one.
#[verifier::external_body]
pub(crate) fn get_connection(map: &DashMap<u128, ConnectionHandle>, uuid: u128) -> (found: Option<
    ConnectionHandle,
>)
    ensures
        found is Some <==> connection_entries(*map).dom().contains(uuid),
        found matches Some(connection) ==> connection@ == connection_entries(*map)[uuid],
{
    map.get(&uuid).map(|entry| entry.value().clone())
}

/// `DashMap::insert` on lobbies: `lobby` is the value under `id` from here on.
#[verifier::external_body]
pub(crate) fn insert_lobby(map: &mut DashMap<u64, LobbyState>, id: u64, lobby: LobbyState)
    ensures
        lobby_entries(*final(map)) == lobby_entries(*old(map)).insert(id, lobby@),
{
    map.insert(id, lobby);
}

/// `DashMap::insert` on lobby codes: `id` is the value under `code` from here on.
#[verifier::external_body]
pub(crate) fn insert_code(map: &mut DashMap<String, u64>, code: String, id: u64)
    ensures
        code_entries(*final(map)) == code_entries(*old(map)).insert(code@, id),
{
    map.insert(code, id);
}

/// `DashMap::insert` on connections: `connection` is the value under `uuid` from here on.
#[verifier::external_body]
pub(crate) fn insert_connection(
    map: &mut DashMap<u128, ConnectionHandle>,
    uuid: u128,
    connection: ConnectionHandle,
)
    ensures
        connection_entries(*final(map)) == connection_entries(*old(map)).insert(uuid, connection@),
{
    map.insert(uuid, connection);
}

/// `DashMap::remove` on lobbies: nothing stands under `id` from here on.
#[verifier::external_body]
pub(crate) fn remove_lobby(map: &mut DashMap<u64, LobbyState>, id: u64)
    ensures
        lobby_entries(*final(map)) == lobby_entries(*old(map)).remove(id),
{
    map.remove(&id);
}

/// `DashMap::remove` on lobby codes: nothing stands under `code` from here on.
#[verifier::external_body]
pub(crate) fn remove_code(map: &mut DashMap<String, u64>, code: &String)
    ensures
        code_entries(*final(map)) == code_entries(*old(map)).remove(code@),
{
    map.remove(code);
}

/// `DashMap::remove` on connections: nothing stands under `uuid` from here on.
#[verifier::external_body]
pub(crate) fn remove_connection(map: &mut DashMap<u128, ConnectionHandle>, uuid: u128)
    ensures
        connection_entries(*final(map)) == connection_entries(*old(map)).remove(uuid),
{
    map.remove(&uuid);
}

/// `DashMap::iter` on lobbies: every key once. The order is the map's own and nothing is said of
/// it.
#[verifier::external_body]
pub(crate) fn lobby_ids(map: &DashMap<u64, LobbyState>) -> (ids: Vec<u64>)
    ensures
        ids@.no_duplicates(),
        ids@.to_set() =~= lobby_entries(*map).dom(),
{
    map.iter().map(|entry| *entry.key()).collect()
}

} // verus!
