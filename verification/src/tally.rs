//! Counting how often each text occurs.

use counter::Counter;
use vstd::prelude::*;

use crate::text::text_before;

verus! {

/// The counter of the `counter` crate, as an opaque type.
#[verifier::external_type_specification]
#[verifier::external_body]
#[verifier::reject_recursive_types(T)]
#[verifier::reject_recursive_types(N)]
pub struct ExCounter<T: std::hash::Hash + std::cmp::Eq, N>(Counter<T, N>);

/// How often each text has been counted. A text that was never counted is not in the map.
pub uninterp spec fn tally(c: Counter<String, usize>) -> Map<Seq<char>, nat>;

/// `counter::Counter::new`: an empty counter.
#[verifier::external_body]
pub(crate) fn new_tally() -> (c: Counter<String, usize>)
    ensures
        tally(c).dom() == Set::<Seq<char>>::empty(),
{
    Counter::new()
}

/// `counter::Counter::update` on a single text: its count grows by one, from zero if it was
/// not there. No other count changes.
#[verifier::external_body]
pub(crate) fn count_one(c: &mut Counter<String, usize>, text: String)
    requires
        tally(*old(c)).contains_key(text@) ==> tally(*old(c))[text@] < usize::MAX,
    ensures
        tally(*final(c)) == tally(*old(c)).insert(
            text@,
            if tally(*old(c)).contains_key(text@) {
                tally(*old(c))[text@] + 1
            } else {
                1
            },
        ),
{
    c.update([text])
}

/// The entry `a` is listed before the entry `b`: it has the larger count, or the same count and
/// the smaller text.
pub open spec fn listed_before(a: (Seq<char>, nat), b: (Seq<char>, nat)) -> bool {
    a.1 > b.1 || (a.1 == b.1 && text_before(a.0, b.0))
}

/// `counter::Counter::most_common_ordered`: every counted text with its count, each once, the
/// most common first, and texts of equal count in the order of strings.
#[verifier::external_body]
pub(crate) fn most_common(c: &Counter<String, usize>) -> (list: Vec<(String, usize)>)
    ensures
        forall|i: int|
            0 <= i < list@.len() ==> tally(*c).contains_key((#[trigger] list@[i]).0@)
                && tally(*c)[list@[i].0@] == list@[i].1,
        forall|k: Seq<char>| #[trigger]
            tally(*c).contains_key(k) ==> exists|i: int|
                0 <= i < list@.len() && (#[trigger] list@[i]).0@ == k,
        forall|i: int, j: int|
            0 <= i < j < list@.len() ==> listed_before(
                ((#[trigger] list@[i]).0@, list@[i].1 as nat),
                ((#[trigger] list@[j]).0@, list@[j].1 as nat),
            ),
{
    c.most_common_ordered()
}

} // verus!
