//! Looking up numbers by text, and ranks by place.

use hashbrown::HashMap;
use vstd::prelude::*;

verus! {

/// A hash map of the `hashbrown` crate from texts to numbers.
#[verifier::external_body]
pub struct TextMap {
    inner: HashMap<String, u64>,
}

/// The numbers that a map holds, by text.
pub uninterp spec fn numbers(m: TextMap) -> Map<Seq<char>, u64>;

/// `hashbrown::HashMap::new`: an empty map.
#[verifier::external_body]
pub(crate) fn new_map() -> (m: TextMap)
    ensures
        numbers(m).dom() == Set::<Seq<char>>::empty(),
{
    TextMap { inner: HashMap::new() }
}

/// `hashbrown::HashMap::get`: the number under the text `key`, if there is one.
#[verifier::external_body]
pub(crate) fn look_up(m: &TextMap, key: &String) -> (r: Option<u64>)
    ensures
        r is Some <==> numbers(*m).contains_key(key@),
        r matches Some(n) ==> n == numbers(*m)[key@],
{
    m.inner.get(key).copied()
}

/// `hashbrown::HashMap::insert`: puts `number` under the text `key`, in place of what was
/// there.
#[verifier::external_body]
pub(crate) fn put(m: &mut TextMap, key: String, number: u64)
    ensures
        numbers(*final(m)) == numbers(*old(m)).insert(key@, number),
{
    m.inner.insert(key, number);
}

/// `hashbrown::HashMap::remove`: takes the number under the text `key` out of the map, if there
/// is one.
#[verifier::external_body]
pub(crate) fn take_out(m: &mut TextMap, key: &String) -> (r: Option<u64>)
    ensures
        r is Some <==> numbers(*old(m)).contains_key(key@),
        r matches Some(n) ==> n == numbers(*old(m))[key@],
        numbers(*final(m)) == numbers(*old(m)).remove(key@),
{
    m.inner.remove(key)
}

/// `hashbrown::HashMap::iter`: every text with its number, each text once, in an order that is
/// left open.
#[verifier::external_body]
pub(crate) fn all_entries(m: &TextMap) -> (list: Vec<(String, u64)>)
    ensures
        forall|i: int|
            0 <= i < list@.len() ==> numbers(*m).contains_key((#[trigger] list@[i]).0@)
                && numbers(*m)[list@[i].0@] == list@[i].1,
        forall|k: Seq<char>| #[trigger]
            numbers(*m).contains_key(k) ==> exists|i: int|
                0 <= i < list@.len() && (#[trigger] list@[i]).0@ == k,
        forall|i: int, j: int|
            0 <= i < j < list@.len() ==> (#[trigger] list@[i]).0@ != (#[trigger] list@[j]).0@,
{
    m.inner.iter().map(|(key, number)| (key.clone(), *number)).collect()
}

/// A hash map of the `hashbrown` crate from the places of servers to their ranks: the weight, the
/// utilization and the soft limit.
#[verifier::external_body]
pub struct RankMap {
    inner: HashMap<usize, (u32, Option<u32>, u32)>,
}

/// The ranks that a map holds, by place.
pub uninterp spec fn ranks(m: RankMap) -> Map<usize, (u32, Option<u32>, u32)>;

/// `hashbrown::HashMap::new`: an empty map.
#[verifier::external_body]
pub(crate) fn new_ranks() -> (m: RankMap)
    ensures
        ranks(m).dom() == Set::<usize>::empty(),
{
    RankMap { inner: HashMap::new() }
}

/// `hashbrown::HashMap::insert`: puts `rank` under `place`, in place of what was there.
#[verifier::external_body]
pub(crate) fn put_rank(m: &mut RankMap, place: usize, rank: (u32, Option<u32>, u32))
    ensures
        ranks(*final(m)) == ranks(*old(m)).insert(place, rank),
{
    m.inner.insert(place, rank);
}

/// `hashbrown::HashMap::get`: the rank under `place`, if there is one.
#[verifier::external_body]
pub(crate) fn look_up_rank(m: &RankMap, place: usize) -> (r: Option<(u32, Option<u32>, u32)>)
    ensures
        r is Some <==> ranks(*m).contains_key(place),
        r matches Some(rank) ==> rank == ranks(*m)[place],
{
    m.inner.get(&place).copied()
}

} // verus!
