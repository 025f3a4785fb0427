//! A group of servers.

use indexmap::IndexMap;
use std::collections::hash_map::RandomState;
use vstd::prelude::*;

use crate::servers::{
    count_servers, distinct_urls, entries, join_servers, joined, lemma_joined_is_distinct,
    new_servers, place_of, server_at, stands_at,
};

verus! {

/// A server that a connection was made to.
#[derive(Debug, Clone, PartialEq, Eq)]
pub struct Web3Connection {
    pub url: String,
    /// Servers with a smaller weight are preferred.
    pub weight: u32,
    /// How many requests at once the server is meant to take.
    pub soft_limit: u32,
}

/// What became of the attempt to connect to a configured server.
#[derive(Debug, Clone, PartialEq, Eq)]
pub enum SpawnOutcome {
    Connected(Web3Connection),
    /// The server could not be connected to.
    Refused,
    /// The task that connects did not run to its end.
    Lost,
}

/// A collection of web3 connections. A server is known by its place in the order in which the
/// servers joined.
pub struct Web3Connections {
    conns: IndexMap<String, (u32, u32), RandomState>,
}

/// The servers that `outcomes` leave, in order: a later connection to the same url replaces an
/// earlier one.
pub open spec fn connected(outcomes: Seq<SpawnOutcome>) -> Seq<(Seq<char>, u32, u32)>
    decreases outcomes.len(),
{
    if outcomes.len() == 0 {
        Seq::empty()
    } else {
        let before = connected(outcomes.drop_last());
        match outcomes.last() {
            SpawnOutcome::Connected(c) => joined(before, (c.url@, c.weight, c.soft_limit)),
            _ => before,
        }
    }
}

impl Web3Connections {
    /// The servers in order: url, weight and soft limit.
    pub closed spec fn servers(self) -> Seq<(Seq<char>, u32, u32)> {
        entries(self.conns)
    }

    /// Makes a group of the servers that could be connected to. Servers that could not are left
    /// out. If a task was lost there is no group, and the place of the first lost one is
    /// returned.
    pub fn spawn(outcomes: Vec<SpawnOutcome>) -> (r: Result<Web3Connections, usize>)
        ensures
            match r {
                Ok(group) => {
                    &&& forall|i: int| 0 <= i < outcomes@.len() ==> !(#[trigger] outcomes@[i] is Lost)
                    &&& group.servers() == connected(outcomes@)
                    &&& distinct_urls(group.servers())
                },
                Err(lost) => {
                    &&& lost < outcomes@.len()
                    &&& outcomes@[lost as int] is Lost
                    &&& forall|i: int| 0 <= i < lost ==> !(#[trigger] outcomes@[i] is Lost)
                },
            },
    {
        let mut conns = new_servers();
        let mut i: usize = 0;
        while i < outcomes.len()
            invariant
                i <= outcomes@.len(),
                forall|j: int| 0 <= j < i ==> !(#[trigger] outcomes@[j] is Lost),
                entries(conns) == connected(outcomes@.take(i as int)),
                distinct_urls(entries(conns)),
            decreases outcomes@.len() - i,
        {
            assert(outcomes@.take(i as int + 1).drop_last() =~= outcomes@.take(i as int));
            match &outcomes[i] {
                SpawnOutcome::Connected(c) => {
                    proof {
                        lemma_joined_is_distinct(
                            entries(conns),
                            (c.url@, c.weight, c.soft_limit),
                        );
                    }
                    join_servers(&mut conns, c.url.clone(), c.weight, c.soft_limit);
                },
                SpawnOutcome::Refused => {},
                SpawnOutcome::Lost => {
                    return Err(i);
                },
            }
            i = i + 1;
        }
        assert(outcomes@.take(i as int) =~= outcomes@);
        Ok(Web3Connections { conns })
    }

    /// The number of servers.
    pub fn len(&self) -> (n: usize)
        ensures
            n == self.servers().len(),
    {
        count_servers(&self.conns)
    }

    /// The server at a place, if there is one.
    pub fn get(&self, place: usize) -> (r: Option<Web3Connection>)
        ensures
            r is Some <==> place < self.servers().len(),
            r matches Some(c) ==> (c.url@, c.weight, c.soft_limit)
                == self.servers()[place as int],
    {
        match server_at(&self.conns, place) {
            None => None,
            Some((url, limits)) => Some(
                Web3Connection { url: url.clone(), weight: limits.0, soft_limit: limits.1 },
            ),
        }
    }
}

/// The outcome at `i` is a connection to `url`.
pub open spec fn connects_to(outcomes: Seq<SpawnOutcome>, url: Seq<char>, i: int) -> bool {
    0 <= i < outcomes.len() && (outcomes[i] matches SpawnOutcome::Connected(c) && c.url@ == url)
}

/// The group has a server with a url if and only if a connection to the url was made, and no url
/// twice; and the server has the weight and the soft limit of the last such connection.
pub proof fn law_last_connection_to_a_url_stays(outcomes: Seq<SpawnOutcome>, url: Seq<char>)
    ensures
        distinct_urls(connected(outcomes)),
        (exists|p: int| stands_at(connected(outcomes), url, p)) <==> (exists|i: int|
            connects_to(outcomes, url, i)),
        forall|p: int, i: int|
            stands_at(connected(outcomes), url, p) && connects_to(outcomes, url, i) && (forall|
                j: int,
            |
                i < j ==> !connects_to(outcomes, url, j)) ==> connected(outcomes)[p] == match outcomes[i] {
                SpawnOutcome::Connected(c) => (c.url@, c.weight, c.soft_limit),
                _ => connected(outcomes)[p],
            },
    decreases outcomes.len(),
{
    if outcomes.len() > 0 {
        let before = outcomes.drop_last();
        let last = outcomes.len() - 1;
        let s = connected(before);
        let t = connected(outcomes);
        law_last_connection_to_a_url_stays(before, url);
        assert forall|i: int| i != last implies connects_to(outcomes, url, i) == connects_to(
            before,
            url,
            i,
        ) by {}
        if let SpawnOutcome::Connected(c) = outcomes[last] {
            let server = (c.url@, c.weight, c.soft_limit);
            lemma_joined_is_distinct(s, server);
            assert(outcomes.last() == outcomes[last]);
            assert(t == joined(s, server));
            if exists|q: int| stands_at(s, c.url@, q) {
                let q = place_of(s, c.url@);
                assert(stands_at(s, server.0, q));
                assert(t == s.update(q, server));
                assert forall|p: int| stands_at(t, url, p) <==> stands_at(s, url, p) by {}
                if c.url@ == url {
                    assert(stands_at(t, url, q));
                    assert(connects_to(outcomes, url, last));
                }
            } else {
                assert(t == s.push(server));
                assert forall|p: int| p != s.len() implies stands_at(t, url, p) == stands_at(
                    s,
                    url,
                    p,
                ) by {}
                if c.url@ == url {
                    assert(stands_at(t, url, s.len() as int));
                    assert(connects_to(outcomes, url, last));
                }
            }
        } else {
            assert(!connects_to(outcomes, url, last));
        }
        assert forall|p: int, i: int|
            stands_at(t, url, p) && connects_to(outcomes, url, i) && (forall|j: int|
                i < j ==> !connects_to(outcomes, url, j)) implies t[p] == match outcomes[i] {
            SpawnOutcome::Connected(c) => (c.url@, c.weight, c.soft_limit),
            _ => t[p],
        } by {
            if i < last {
                assert(!connects_to(outcomes, url, last));
                assert(connects_to(before, url, i));
                assert forall|j: int| i < j implies !connects_to(before, url, j) by {
                    assert(!connects_to(outcomes, url, j));
                }
            }
        }
    }
}

/// The servers stand in the order in which they were first connected to: of two urls, the one of
/// which the first connection was made earlier has the earlier place.
pub proof fn law_servers_stand_in_order_of_first_connection(
    outcomes: Seq<SpawnOutcome>,
    url: Seq<char>,
    i: int,
    other: Seq<char>,
    p: int,
    q: int,
)
    requires
        connects_to(outcomes, url, i),
        forall|j: int| 0 <= j <= i ==> !connects_to(outcomes, other, j),
        stands_at(connected(outcomes), url, p),
        stands_at(connected(outcomes), other, q),
    ensures
        p < q,
    decreases outcomes.len(),
{
    let before = outcomes.drop_last();
    let last = outcomes.len() - 1;
    let s = connected(before);
    let t = connected(outcomes);
    law_last_connection_to_a_url_stays(before, url);
    law_last_connection_to_a_url_stays(before, other);
    law_last_connection_to_a_url_stays(outcomes, url);
    law_last_connection_to_a_url_stays(outcomes, other);
    assert forall|k: int, u: Seq<char>| k != last implies #[trigger] connects_to(outcomes, u, k)
        == connects_to(before, u, k) by {}
    let m = choose|m: int| connects_to(outcomes, other, m);
    if i == last {
        assert(!connects_to(outcomes, other, m));
    }
    assert(connects_to(before, url, i));
    let pb = choose|x: int| stands_at(s, url, x);
    assert forall|j: int| 0 <= j <= i implies !connects_to(before, other, j) by {
        assert(!connects_to(outcomes, other, j));
    }
    assert(outcomes.last() == outcomes[last]);
    match outcomes[last] {
        SpawnOutcome::Connected(c) => {
            let server = (c.url@, c.weight, c.soft_limit);
            assert(t == joined(s, server));
            if exists|x: int| stands_at(s, c.url@, x) {
                let x = place_of(s, c.url@);
                assert(stands_at(s, server.0, x));
                assert(t == s.update(x, server));
                assert(stands_at(s, url, p));
                assert(stands_at(s, other, q));
                law_servers_stand_in_order_of_first_connection(before, url, i, other, p, q);
            } else {
                assert(t == s.push(server));
                assert(stands_at(t, url, pb));
                assert(p == pb);
                if q < s.len() {
                    assert(stands_at(s, other, q));
                    law_servers_stand_in_order_of_first_connection(before, url, i, other, p, q);
                }
            }
        },
        _ => {
            law_servers_stand_in_order_of_first_connection(before, url, i, other, p, q);
        },
    }
}

} // verus!
