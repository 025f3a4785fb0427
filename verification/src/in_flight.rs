//! The requests in flight. Each has a ticket, by which those that wait for it find it.

use dashmap::DashMap;
use std::collections::hash_map::RandomState;
use vstd::prelude::*;

use crate::cache::{key_parts, CacheKey};

verus! {

/// The requests in flight by key, each with its ticket.
pub type ActiveRequestsMap = DashMap<(Option<[u8; 32]>, String, Option<String>), u64, RandomState>;

/// The concurrent map of the `dashmap` crate, as an opaque type. The map could be changed
/// through a shared reference. It is only changed here where it is not shared, and whoever is
/// handed a shared reference must only read.
#[verifier::external_type_specification]
#[verifier::external_body]
#[verifier::reject_recursive_types(K)]
#[verifier::reject_recursive_types(V)]
#[verifier::reject_recursive_types(S)]
pub struct ExDashMap<K, V, S>(DashMap<K, V, S>);

/// The tickets of the requests in flight, by the parts of their keys.
pub uninterp spec fn tickets(
    m: DashMap<(Option<[u8; 32]>, String, Option<String>), u64, RandomState>,
) -> Map<(Option<Seq<u8>>, Seq<char>, Option<Seq<char>>), u64>;

/// `dashmap::DashMap::new`: an empty map.
#[verifier::external_body]
pub(crate) fn no_requests() -> (m: ActiveRequestsMap)
    ensures
        tickets(m).dom() == Set::<(Option<Seq<u8>>, Seq<char>, Option<Seq<char>>)>::empty(),
{
    DashMap::new()
}

/// `dashmap::DashMap::get`: the ticket under a key, if there is one.
#[verifier::external_body]
pub(crate) fn ticket_of(m: &ActiveRequestsMap, key: &CacheKey) -> (r: Option<u64>)
    ensures
        r is Some <==> tickets(*m).contains_key(key_parts(*key)),
        r matches Some(ticket) ==> ticket == tickets(*m)[key_parts(*key)],
{
    m.get(key).map(|entry| *entry.value())
}

/// `dashmap::DashMap::insert`: puts a ticket under a key, in place of what was there.
#[verifier::external_body]
pub(crate) fn enter(m: &mut ActiveRequestsMap, key: CacheKey, ticket: u64)
    ensures
        tickets(*final(m)) == tickets(*old(m)).insert(key_parts(key), ticket),
{
    m.insert(key, ticket);
}

/// `dashmap::DashMap::remove`: takes the ticket under a key out of the map, if there is one.
#[verifier::external_body]
pub(crate) fn leave(m: &mut ActiveRequestsMap, key: &CacheKey)
    ensures
        tickets(*final(m)) == tickets(*old(m)).remove(key_parts(*key)),
{
    m.remove(key);
}

} // verus!
