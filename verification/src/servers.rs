//! The servers of a group, each once, in the order in which they joined.

use indexmap::IndexMap;
use std::collections::hash_map::RandomState;
use vstd::prelude::*;

verus! {

/// The ordered map of the `indexmap` crate, as an opaque type.
#[verifier::external_type_specification]
#[verifier::external_body]
#[verifier::reject_recursive_types(K)]
#[verifier::reject_recursive_types(V)]
#[verifier::reject_recursive_types(S)]
pub struct ExIndexMap<K, V, S>(IndexMap<K, V, S>);

/// The entries of a map in their order: the url, the weight and the soft limit of a server.
pub uninterp spec fn entries(m: IndexMap<String, (u32, u32), RandomState>) -> Seq<
    (Seq<char>, u32, u32),
>;

/// No url stands twice in `s`.
pub open spec fn distinct_urls(s: Seq<(Seq<char>, u32, u32)>) -> bool {
    forall|i: int, j: int|
        0 <= i < j < s.len() ==> (#[trigger] s[i]).0 != (#[trigger] s[j]).0
}

/// The server with the url `url` stands at place `i`.
pub open spec fn stands_at(s: Seq<(Seq<char>, u32, u32)>, url: Seq<char>, i: int) -> bool {
    0 <= i < s.len() && s[i].0 == url
}

/// The place of the server with the url `url`.
pub open spec fn place_of(s: Seq<(Seq<char>, u32, u32)>, url: Seq<char>) -> int {
    choose|i: int| stands_at(s, url, i)
}

/// The servers after `server` has joined: it takes the place of the one with the same url, or
/// else the last place.
pub open spec fn joined(
    s: Seq<(Seq<char>, u32, u32)>,
    server: (Seq<char>, u32, u32),
) -> Seq<(Seq<char>, u32, u32)> {
    if exists|i: int| stands_at(s, server.0, i) {
        s.update(place_of(s, server.0), server)
    } else {
        s.push(server)
    }
}

/// `indexmap::IndexMap::new`: an empty map.
#[verifier::external_body]
pub(crate) fn new_servers() -> (m: IndexMap<String, (u32, u32), RandomState>)
    ensures
        entries(m).len() == 0,
{
    IndexMap::new()
}

/// `indexmap::IndexMap::insert`: an entry with the same key keeps its place and gets the new
/// value; otherwise the new entry comes last.
#[verifier::external_body]
pub(crate) fn join_servers(
    m: &mut IndexMap<String, (u32, u32), RandomState>,
    url: String,
    weight: u32,
    soft_limit: u32,
)
    requires
        distinct_urls(entries(*old(m))),
    ensures
        entries(*final(m)) == joined(entries(*old(m)), (url@, weight, soft_limit)),
{
    m.insert(url, (weight, soft_limit));
}

/// `indexmap::IndexMap::len`: the number of entries.
#[verifier::external_body]
pub(crate) fn count_servers(m: &IndexMap<String, (u32, u32), RandomState>) -> (n: usize)
    ensures
        n == entries(*m).len(),
{
    m.len()
}

/// `indexmap::IndexMap::get_index`: the entry at a place, if the map has that place.
#[verifier::external_body]
pub(crate) fn server_at(
    m: &IndexMap<String, (u32, u32), RandomState>,
    place: usize,
) -> (r: Option<(&String, &(u32, u32))>)
    ensures
        r is Some <==> place < entries(*m).len(),
        r matches Some(e) ==> (e.0@, e.1.0, e.1.1) == entries(*m)[place as int],
{
    m.get_index(place)
}

/// Joining keeps the urls distinct.
pub proof fn lemma_joined_is_distinct(
    s: Seq<(Seq<char>, u32, u32)>,
    server: (Seq<char>, u32, u32),
)
    requires
        distinct_urls(s),
    ensures
        distinct_urls(joined(s, server)),
{
    if exists|i: int| stands_at(s, server.0, i) {
        let p = place_of(s, server.0);
        assert(joined(s, server) == s.update(p, server));
    } else {
        assert forall|i: int, j: int| 0 <= i < j < s.push(server).len() implies (
        #[trigger] s.push(server)[i]).0 != (#[trigger] s.push(server)[j]).0 by {
            if j == s.len() {
                assert(!stands_at(s, server.0, i));
            }
        }
    }
}

} // verus!
