//! Choosing the server that a request goes to.

use vstd::prelude::*;
use vstd::seq_lib::*;

use crate::connections::Web3Connections;
use crate::error::ProxyError;
use crate::lookup::{look_up_rank, new_ranks, put_rank, ranks, RankMap};

verus! {

/// What a server said when it was asked to take a request.
#[derive(Debug, Clone, Copy, PartialEq, Eq)]
pub enum HandleReply {
    /// The server takes the request.
    ActiveRequest,
    /// The server is rate limited until the given time.
    RetryAt(u64),
    /// The server does not take the request.
    Unavailable,
    /// The server could not be asked.
    Failed,
}

/// Where a request can go.
#[derive(Debug, Clone, Copy, PartialEq, Eq)]
pub enum OpenRequestResult {
    /// To the server at this place.
    ActiveRequest(usize),
    /// Nowhere before the given time.
    RetryAt(u64),
    /// Nowhere.
    Unavailable,
}

/// What is known of the servers of a group at some moment.
pub struct GroupStatus {
    /// For each server, whether it has the data of the block that is needed. Absent if no
    /// certain block is needed.
    pub has_block_data: Option<Vec<bool>>,
    /// The places of the servers that are in sync.
    pub synced: Vec<usize>,
    /// For each server, the number of its active requests divided by its soft limit, as the bits
    /// of a single precision number. Such numbers from zero up have the order of their bits.
    /// Absent if the quotient is not a number.
    pub utilization: Vec<Option<u32>>,
}

impl GroupStatus {
    /// The status tells of `n` servers.
    pub open spec fn fits(self, n: nat) -> bool {
        &&& self.has_block_data matches Some(has) ==> has@.len() == n
        &&& forall|i: int| 0 <= i < self.synced@.len() ==> (#[trigger] self.synced@[i]) < n
        &&& self.utilization@.len() == n
    }

    /// Every status that tells of each of `n` servers once, and of no other server, fits.
    pub proof fn law_status_of_the_group_fits(self, n: nat)
        ensures
            self.fits(n) <==> {
                &&& self.utilization@.len() == n
                &&& self.has_block_data is None || self.has_block_data->Some_0@.len() == n
                &&& forall|s: usize| #[trigger] self.synced@.contains(s) ==> s < n
            },
    {
        assert forall|i: int| 0 <= i < self.synced@.len() implies self.synced@.contains(
            #[trigger] self.synced@[i],
        ) by {}
    }

    /// Whether the status tells of `n` servers.
    pub fn check(&self, n: usize) -> (r: bool)
        ensures
            r == self.fits(n as nat),
    {
        match &self.has_block_data {
            Some(has) => {
                if has.len() != n {
                    return false;
                }
            },
            None => {},
        }
        let mut i: usize = 0;
        while i < self.synced.len()
            invariant
                i <= self.synced@.len(),
                forall|j: int| 0 <= j < i ==> (#[trigger] self.synced@[j]) < n,
            decreases self.synced@.len() - i,
        {
            if self.synced[i] >= n {
                return false;
            }
            i = i + 1;
        }
        self.utilization.len() == n
    }
}

/// What decides which server is preferred: the weight, the utilization and the soft limit.
pub type ServerRank = (u32, Option<u32>, u32);

/// The server of rank `a` is preferred to that of rank `b`: it has the smaller weight, or else
/// the smaller utilization, or else the larger soft limit. A utilization that is not a number
/// decides nothing, and neither does what follows it.
pub open spec fn preferred(a: ServerRank, b: ServerRank) -> bool {
    ||| a.0 < b.0
    ||| {
        &&& a.0 == b.0
        &&& a.1 matches Some(ua)
        &&& b.1 matches Some(ub)
        &&& ua < ub || (ua == ub && a.2 > b.2)
    }
}

/// The rank of the server at place `s`.
pub open spec fn rank_of(
    servers: Seq<(Seq<char>, u32, u32)>,
    status: GroupStatus,
    s: usize,
) -> ServerRank {
    (servers[s as int].1, status.utilization@[s as int], servers[s as int].2)
}

/// The servers that may get the request: those with the needed block, or if none is needed
/// those in sync, without the servers to skip.
pub open spec fn candidates(n: nat, skip: Seq<usize>, status: GroupStatus) -> Seq<usize> {
    eligible_servers(n, status).filter(|s: usize| !skip.contains(s))
}

/// The servers with the needed block, or if none is needed those in sync.
pub open spec fn eligible_servers(n: nat, status: GroupStatus) -> Seq<usize> {
    match status.has_block_data {
        Some(has) => all_places(n).filter(|s: usize| has@[s as int]),
        None => status.synced@,
    }
}

/// The places of `n` servers.
pub open spec fn all_places(n: nat) -> Seq<usize> {
    Seq::new(n, |i: int| i as usize)
}

/// No server of `list` is preferred to one that stands before it.
pub open spec fn in_preferred_order(
    servers: Seq<(Seq<char>, u32, u32)>,
    status: GroupStatus,
    list: Seq<usize>,
) -> bool {
    forall|i: int, j: int|
        0 <= i < j < list.len() ==> !preferred(
            rank_of(servers, status, #[trigger] list[j]),
            rank_of(servers, status, #[trigger] list[i]),
        )
}

/// `t` is the earliest of the given times, and absent if there is none.
pub open spec fn is_earliest(times: Seq<Option<u64>>, t: Option<u64>) -> bool {
    match t {
        None => forall|i: int| 0 <= i < times.len() ==> #[trigger] times[i] is None,
        Some(first) => {
            &&& exists|i: int| 0 <= i < times.len() && #[trigger] times[i] == Some(first)
            &&& forall|i: int|
                0 <= i < times.len() ==> (#[trigger] times[i] matches Some(u) ==> first <= u)
        },
    }
}

/// The time that a reply names.
pub open spec fn retry_time(reply: HandleReply) -> Option<u64> {
    match reply {
        HandleReply::RetryAt(t) => Some(t),
        _ => None,
    }
}

/// The times that the replies name.
pub open spec fn retry_times(replies: Seq<HandleReply>) -> Seq<Option<u64>> {
    replies.map_values(|r: HandleReply| retry_time(r))
}

/// The servers that a request to all servers is offered to: those with the needed block, or if
/// none is needed all of them, in sync or not.
pub open spec fn asked_servers(n: nat, has_block_data: Option<Vec<bool>>) -> Seq<usize> {
    match has_block_data {
        Some(has) => all_places(n).filter(|s: usize| has@[s as int]),
        None => all_places(n),
    }
}

/// Each server that was asked, with its reply.
pub open spec fn with_replies(asked: Seq<usize>, replies: Seq<HandleReply>) -> Seq<
    (usize, HandleReply),
> {
    Seq::new(asked.len(), |i: int| (asked[i], replies[i]))
}

/// The servers that take the request, of those that were asked.
pub open spec fn takers(asked: Seq<usize>, replies: Seq<HandleReply>) -> Seq<usize> {
    with_replies(asked, replies).filter(|a: (usize, HandleReply)| a.1 is ActiveRequest).map_values(
        |a: (usize, HandleReply)| a.0,
    )
}

fn is_preferred(a: &ServerRank, b: &ServerRank) -> (r: bool)
    ensures
        r == preferred(*a, *b),
{
    if a.0 != b.0 {
        a.0 < b.0
    } else {
        match (a.1, b.1) {
            (Some(ua), Some(ub)) => ua < ub || (ua == ub && a.2 > b.2),
            _ => false,
        }
    }
}

/// The earlier of a time, if there is one, and another time.
fn earlier(t: Option<u64>, u: u64) -> (r: Option<u64>)
    ensures
        r matches Some(x) && x == (match t {
            Some(old_time) if old_time <= u => old_time,
            _ => u,
        }),
{
    match t {
        Some(old_time) => if old_time <= u {
            Some(old_time)
        } else {
            Some(u)
        },
        None => Some(u),
    }
}

proof fn lemma_earliest_step(times: Seq<Option<u64>>, t: Option<u64>, u: Option<u64>, r: Option<u64>)
    requires
        is_earliest(times, t),
        u is None ==> r == t,
        u matches Some(x) ==> r == (match t {
            Some(old_time) if old_time <= x => Some(old_time),
            _ => Some(x),
        }),
    ensures
        is_earliest(times.push(u), r),
{
    let longer = times.push(u);
    assert(longer[times.len() as int] == u);
    if let Some(first) = t {
        let i = choose|i: int| 0 <= i < times.len() && #[trigger] times[i] == Some(first);
        assert(longer[i] == Some(first));
    }
    assert forall|i: int| 0 <= i < longer.len() && i != times.len() implies #[trigger] longer[i]
        == times[i] by {}
}

/// Puts the servers of `list` in the order of preference.
fn sort_servers(list: &Vec<usize>, sort_cache: &RankMap) -> (sorted: Vec<usize>)
    requires
        forall|i: int| 0 <= i < list@.len() ==> ranks(*sort_cache).contains_key(#[trigger] list@[i]),
    ensures
        sorted@.to_multiset() == list@.to_multiset(),
        forall|i: int, j: int|
            0 <= i < j < sorted@.len() ==> !preferred(
                ranks(*sort_cache)[#[trigger] sorted@[j]],
                ranks(*sort_cache)[#[trigger] sorted@[i]],
            ),
{
    let mut sorted: Vec<usize> = Vec::new();
    let mut k: usize = 0;
    assert(list@.take(0) =~= sorted@);
    while k < list.len()
        invariant
            k <= list@.len(),
            sorted@.len() == k,
            forall|i: int| 0 <= i < list@.len() ==> ranks(*sort_cache).contains_key(#[trigger] list@[i]),
            forall|i: int|
                0 <= i < sorted@.len() ==> ranks(*sort_cache).contains_key(#[trigger] sorted@[i]),
            sorted@.to_multiset() == list@.take(k as int).to_multiset(),
            forall|i: int, j: int|
                0 <= i < j < sorted@.len() ==> !preferred(
                    ranks(*sort_cache)[#[trigger] sorted@[j]],
                    ranks(*sort_cache)[#[trigger] sorted@[i]],
                ),
        decreases list@.len() - k,
    {
        let s: usize = list[k];
        let rank = look_up_rank(sort_cache, s).unwrap();
        let mut p: usize = 0;
        while p < sorted.len() && !is_preferred(
            &rank,
            &look_up_rank(sort_cache, sorted[p]).unwrap(),
        )
            invariant
                p <= sorted@.len(),
                ranks(*sort_cache).contains_key(s),
                rank == ranks(*sort_cache)[s],
                forall|i: int|
                0 <= i < sorted@.len() ==> ranks(*sort_cache).contains_key(#[trigger] sorted@[i]),
                forall|i: int|
                    0 <= i < p ==> !preferred(
                        ranks(*sort_cache)[s],
                        ranks(*sort_cache)[#[trigger] sorted@[i]],
                    ),
            decreases sorted@.len() - p,
        {
            p = p + 1;
        }
        let ghost shorter = sorted@;
        sorted.insert(p, s);
        proof {
            shorter.insert_ensures(p as int, s);
            to_multiset_insert(shorter, p as int, s);
            assert(list@.take(k as int + 1) =~= list@.take(k as int).push(s));
            to_multiset_build(list@.take(k as int), s);
            assert forall|i: int| 0 <= i < sorted@.len() implies #[trigger] sorted@[i] == if i < p {
                shorter[i]
            } else if i == p {
                s
            } else {
                shorter[i - 1]
            } by {
                if i > p {
                    assert(shorter.insert(p as int, s)[(i - 1) + 1] == shorter[i - 1]);
                }
            }
        }
        k = k + 1;
    }
    assert(list@.take(k as int) =~= list@);
    sorted
}

/// Whether `skip` holds the place `s`.
fn is_skipped(skip: &Vec<usize>, s: usize) -> (r: bool)
    ensures
        r == skip@.contains(s),
{
    let mut i: usize = 0;
    while i < skip.len()
        invariant
            i <= skip@.len(),
            forall|j: int| 0 <= j < i ==> skip@[j] != s,
        decreases skip@.len() - i,
    {
        if skip[i] == s {
            return true;
        }
        i = i + 1;
    }
    false
}

/// The search for a server that takes a request: the servers to ask, in order, and what those
/// asked so far replied.
pub struct UpstreamSearch {
    order: Vec<usize>,
    asked: usize,
    found: bool,
    earliest_retry_at: Option<u64>,
    said: Ghost<Seq<HandleReply>>,
}

impl UpstreamSearch {
    /// The servers to ask, in order.
    pub closed spec fn servers(self) -> Seq<usize> {
        self.order@
    }

    /// The replies of the servers asked so far.
    pub closed spec fn replies(self) -> Seq<HandleReply> {
        self.said@
    }

    /// The last server asked takes the request.
    pub open spec fn has_taker(self) -> bool {
        self.replies().len() > 0 && self.replies().last() is ActiveRequest
    }

    /// No more server is to be asked.
    pub open spec fn is_over(self) -> bool {
        self.has_taker() || self.replies().len() == self.servers().len()
    }

    /// The search has come to a result: a server takes the request, or none does and some server
    /// said when to ask again.
    pub open spec fn is_decided(self) -> bool {
        ||| self.has_taker()
        ||| {
            &&& self.replies().len() == self.servers().len()
            &&& exists|i: int|
                0 <= i < self.replies().len() && #[trigger] self.replies()[i] is RetryAt
        }
    }

    /// The search stops at the first server that takes the request, and keeps count of the
    /// replies.
    pub closed spec fn wf(self) -> bool {
        &&& self.asked == self.replies().len() <= self.servers().len()
        &&& forall|i: int|
            0 <= i < self.replies().len() - 1 ==> !(#[trigger] self.replies()[i] is ActiveRequest)
        &&& self.found == self.has_taker()
        &&& is_earliest(retry_times(self.replies()), self.earliest_retry_at)
    }

    /// A search asks no more servers than there are, and none after one has taken the request.
    pub proof fn law_search_stops_at_first_taker(self)
        requires
            self.wf(),
        ensures
            self.replies().len() <= self.servers().len(),
            forall|i: int|
                0 <= i < self.replies().len() - 1 ==> !(
                #[trigger] self.replies()[i] is ActiveRequest),
    {
    }

    /// A search goes on for as long as some server has not been asked and none takes the request.
    /// It is decided once a server takes the request, or once all were asked and one of them
    /// named a time.
    pub proof fn law_search_goes_on_until_a_server_takes_the_request(self)
        requires
            self.wf(),
        ensures
            self.is_over() <==> {
                ||| self.replies().contains(HandleReply::ActiveRequest)
                ||| self.replies().len() == self.servers().len()
            },
            self.is_decided() <==> {
                ||| self.replies().contains(HandleReply::ActiveRequest)
                ||| {
                    &&& self.replies().len() == self.servers().len()
                    &&& exists|t: u64| #[trigger]
                        self.replies().contains(HandleReply::RetryAt(t))
                }
            },
            self.is_decided() ==> self.is_over(),
    {
        let replies = self.replies();
        if replies.contains(HandleReply::ActiveRequest) {
            let i = choose|i: int|
                0 <= i < replies.len() && replies[i] == HandleReply::ActiveRequest;
            assert(replies[i] is ActiveRequest);
            assert(i == replies.len() - 1);
        }
        if self.has_taker() {
            assert(replies[replies.len() - 1] == HandleReply::ActiveRequest);
        }
        if exists|i: int| 0 <= i < replies.len() && #[trigger] replies[i] is RetryAt {
            let i = choose|i: int| 0 <= i < replies.len() && #[trigger] replies[i] is RetryAt;
            if let HandleReply::RetryAt(t) = replies[i] {
                assert(replies.contains(HandleReply::RetryAt(t)));
            }
        }
        if exists|t: u64| #[trigger] replies.contains(HandleReply::RetryAt(t)) {
            let t = choose|t: u64| #[trigger] replies.contains(HandleReply::RetryAt(t));
            let i = choose|i: int| 0 <= i < replies.len() && replies[i] == HandleReply::RetryAt(t);
            assert(replies[i] is RetryAt);
        }
    }

    /// The server to ask next, or none if the search is over.
    pub fn next_server(&self) -> (r: Option<usize>)
        requires
            self.wf(),
        ensures
            r is None <==> self.is_over(),
            r matches Some(s) ==> s == self.servers()[self.replies().len() as int],
    {
        if self.found || self.asked == self.order.len() {
            None
        } else {
            Some(self.order[self.asked])
        }
    }

    /// Takes note of the reply of the server that was to be asked.
    pub fn record(&mut self, reply: HandleReply)
        requires
            old(self).wf(),
            !old(self).is_over(),
        ensures
            final(self).wf(),
            final(self).servers() == old(self).servers(),
            final(self).replies() == old(self).replies().push(reply),
    {
        let ghost before = self.said@;
        let ghost earliest = self.earliest_retry_at;
        let limit: usize = self.order.len();
        assert(self.asked < limit);
        self.asked = self.asked + 1;
        self.found = false;
        match reply {
            HandleReply::ActiveRequest => {
                self.found = true;
            },
            HandleReply::RetryAt(t) => {
                self.earliest_retry_at = earlier(self.earliest_retry_at, t);
            },
            _ => {},
        }
        self.said = Ghost(before.push(reply));
        proof {
            assert(retry_times(before.push(reply)) =~= retry_times(before).push(retry_time(reply)));
            lemma_earliest_step(
                retry_times(before),
                earliest,
                retry_time(reply),
                self.earliest_retry_at,
            );
        }
    }

    /// Whether the search has come to a result.
    pub fn decided(&self) -> (r: bool)
        requires
            self.wf(),
        ensures
            r == self.is_decided(),
    {
        proof {
            lemma_earliest_exists(self.replies(), self.earliest_retry_at);
        }
        self.found || (self.asked == self.order.len() && self.earliest_retry_at.is_some())
    }

    /// The result: the server that takes the request, or else the earliest time that a server
    /// gave.
    pub fn outcome(&self) -> (r: OpenRequestResult)
        requires
            self.wf(),
            self.is_decided(),
        ensures
            match r {
                OpenRequestResult::ActiveRequest(s) => {
                    &&& self.has_taker()
                    &&& s == self.servers()[self.replies().len() - 1]
                    &&& forall|i: int|
                        0 <= i < self.replies().len() - 1 ==> !(
                        #[trigger] self.replies()[i] is ActiveRequest)
                },
                OpenRequestResult::RetryAt(t) => !self.has_taker() && is_earliest(
                    retry_times(self.replies()),
                    Some(t),
                ),
                OpenRequestResult::Unavailable => false,
            },
    {
        proof {
            lemma_earliest_exists(self.replies(), self.earliest_retry_at);
        }
        if self.found {
            OpenRequestResult::ActiveRequest(self.order[self.asked - 1])
        } else {
            match self.earliest_retry_at {
                Some(t) => OpenRequestResult::RetryAt(t),
                None => OpenRequestResult::Unavailable,
            }
        }
    }
}

proof fn lemma_earliest_exists(replies: Seq<HandleReply>, t: Option<u64>)
    requires
        is_earliest(retry_times(replies), t),
    ensures
        t is Some <==> exists|i: int| 0 <= i < replies.len() && #[trigger] replies[i] is RetryAt,
{
    let times = retry_times(replies);
    assert forall|i: int| 0 <= i < replies.len() implies #[trigger] times[i] == retry_time(
        replies[i],
    ) by {}
    if let Some(first) = t {
        let i = choose|i: int| 0 <= i < times.len() && #[trigger] times[i] == Some(first);
        assert(replies[i] is RetryAt);
    } else if exists|i: int| 0 <= i < replies.len() && #[trigger] replies[i] is RetryAt {
        let i = choose|i: int| 0 <= i < replies.len() && #[trigger] replies[i] is RetryAt;
        assert(times[i] is Some);
    }
}

impl Web3Connections {
    /// The places of the servers with the needed block.
    fn places_with_block(&self, has: &Vec<bool>) -> (list: Vec<usize>)
        requires
            has@.len() == self.servers().len(),
        ensures
            list@ == all_places(self.servers().len()).filter(|s: usize| has@[s as int]),
    {
        let n: usize = self.len();
        let ghost places = all_places(n as nat);
        let ghost wanted = |s: usize| has@[s as int];
        let mut list: Vec<usize> = Vec::new();
        let mut i: usize = 0;
        proof {
            assert(places.take(0) =~= Seq::<usize>::empty());
            reveal(Seq::filter);
        }
        while i < n
            invariant
                i <= n,
                has@.len() == n,
                places == all_places(n as nat),
                wanted == (|s: usize| has@[s as int]),
                list@ == places.take(i as int).filter(wanted),
            decreases n - i,
        {
            proof {
                assert(places.take(i as int + 1) =~= places.take(i as int).push(i));
                places.take(i as int).lemma_filter_push(i, wanted);
            }
            if has[i] {
                list.push(i);
            }
            i = i + 1;
        }
        assert(places.take(i as int) =~= places);
        list
    }

    /// The places of the servers with the needed block, or if none is needed those in sync.
    fn eligible_places(&self, status: &GroupStatus) -> (list: Vec<usize>)
        requires
            status.fits(self.servers().len()),
        ensures
            list@ == eligible_servers(self.servers().len(), *status),
    {
        match &status.has_block_data {
            None => {
                let mut list: Vec<usize> = Vec::new();
                let mut i: usize = 0;
                while i < status.synced.len()
                    invariant
                        i <= status.synced@.len(),
                        list@ == status.synced@.take(i as int),
                    decreases status.synced@.len() - i,
                {
                    list.push(status.synced[i]);
                    i = i + 1;
                }
                assert(status.synced@.take(i as int) =~= status.synced@);
                list
            },
            Some(has) => self.places_with_block(has),
        }
    }

    /// The servers that a request to all servers is offered to, given which servers have the data
    /// of the needed block, if one is needed. A server that lacks it is not asked.
    pub fn servers_to_ask(&self, has_block_data: &Option<Vec<bool>>) -> (r: Vec<usize>)
        requires
            has_block_data matches Some(has) ==> has@.len() == self.servers().len(),
        ensures
            r@ == asked_servers(self.servers().len(), *has_block_data),
    {
        match has_block_data {
            Some(has) => self.places_with_block(has),
            None => {
                let n: usize = self.len();
                let mut list: Vec<usize> = Vec::new();
                let mut i: usize = 0;
                while i < n
                    invariant
                        i <= n,
                        list@ == all_places(n as nat).take(i as int),
                    decreases n - i,
                {
                    list.push(i);
                    i = i + 1;
                    assert(list@ =~= all_places(n as nat).take(i as int));
                }
                assert(list@ =~= all_places(n as nat));
                list
            },
        }
    }

    /// All servers that take a request, in sync or not, given what each server that was to be
    /// asked replied. Servers that lack the needed block are not among them. If no server takes
    /// it, the earliest time that a server gave.
    pub fn upstream_servers(
        &self,
        has_block_data: &Option<Vec<bool>>,
        replies: &Vec<HandleReply>,
    ) -> (r: Result<Vec<usize>, Option<u64>>)
        requires
            has_block_data matches Some(has) ==> has@.len() == self.servers().len(),
            replies@.len() == asked_servers(self.servers().len(), *has_block_data).len(),
        ensures
            ({
                let asked = asked_servers(self.servers().len(), *has_block_data);
                match r {
                    Ok(list) => list@ == takers(asked, replies@) && list@.len() > 0,
                    Err(t) => takers(asked, replies@).len() == 0 && is_earliest(
                        retry_times(replies@),
                        t,
                    ),
                }
            }),
    {
        let asked = self.servers_to_ask(has_block_data);
        let ghost pairs = with_replies(asked@, replies@);
        let ghost taking = |a: (usize, HandleReply)| a.1 is ActiveRequest;
        let ghost place = |a: (usize, HandleReply)| a.0;
        let ghost times = retry_times(replies@);
        let mut selected: Vec<usize> = Vec::new();
        let mut earliest_retry_at: Option<u64> = None;
        let mut i: usize = 0;
        proof {
            assert(pairs.take(0) =~= Seq::<(usize, HandleReply)>::empty());
            assert(times.take(0) =~= Seq::<Option<u64>>::empty());
            reveal(Seq::filter);
            assert(selected@ =~= pairs.take(0).filter(taking).map_values(place));
        }
        while i < asked.len()
            invariant
                i <= asked@.len() == replies@.len(),
                pairs == with_replies(asked@, replies@),
                taking == (|a: (usize, HandleReply)| a.1 is ActiveRequest),
                place == (|a: (usize, HandleReply)| a.0),
                times == retry_times(replies@),
                selected@ == pairs.take(i as int).filter(taking).map_values(place),
                is_earliest(times.take(i as int), earliest_retry_at),
            decreases asked@.len() - i,
        {
            let ghost before = earliest_retry_at;
            match replies[i] {
                HandleReply::ActiveRequest => {
                    selected.push(asked[i]);
                },
                HandleReply::RetryAt(t) => {
                    earliest_retry_at = earlier(earliest_retry_at, t);
                },
                _ => {},
            }
            proof {
                let pair = pairs[i as int];
                assert(pairs.take(i as int + 1) =~= pairs.take(i as int).push(pair));
                pairs.take(i as int).lemma_filter_push(pair, taking);
                assert(selected@ =~= pairs.take(i as int + 1).filter(taking).map_values(place));
                assert(times.take(i as int + 1) =~= times.take(i as int).push(times[i as int]));
                lemma_earliest_step(
                    times.take(i as int),
                    before,
                    times[i as int],
                    earliest_retry_at,
                );
            }
            i = i + 1;
        }
        proof {
            assert(pairs.take(i as int) =~= pairs);
            assert(times.take(i as int) =~= times);
        }
        if !selected.is_empty() {
            return Ok(selected);
        }
        Err(earliest_retry_at)
    }

    /// Starts the search for a server that takes a request: the servers with the needed block,
    /// or if none is needed those in sync, without those to skip, the preferred ones first.
    /// Fails if there is no such server.
    pub fn next_upstream_server(&self, skip: &Vec<usize>, status: &GroupStatus) -> (r: Result<
        UpstreamSearch,
        ProxyError,
    >)
        requires
            status.fits(self.servers().len()),
        ensures
            r is Err <==> candidates(self.servers().len(), skip@, *status).len() == 0,
            r matches Err(e) ==> e == ProxyError::NotSynced,
            r matches Ok(search) ==> {
                &&& search.wf()
                &&& search.replies().len() == 0
                &&& search.servers().to_multiset() == candidates(
                    self.servers().len(),
                    skip@,
                    *status,
                ).to_multiset()
                &&& in_preferred_order(self.servers(), *status, search.servers())
            },
    {
        let n: usize = self.len();
        let eligible = self.eligible_places(status);
        let ghost allowed = |s: usize| !skip@.contains(s);
        let mut list: Vec<usize> = Vec::new();
        let mut i: usize = 0;
        proof {
            assert(eligible@.take(0) =~= Seq::<usize>::empty());
            reveal(Seq::filter);
        }
        while i < eligible.len()
            invariant
                i <= eligible@.len(),
                allowed == (|s: usize| !skip@.contains(s)),
                list@ == eligible@.take(i as int).filter(allowed),
            decreases eligible@.len() - i,
        {
            let s: usize = eligible[i];
            proof {
                assert(eligible@.take(i as int + 1) =~= eligible@.take(i as int).push(s));
                eligible@.take(i as int).lemma_filter_push(s, allowed);
            }
            if !is_skipped(skip, s) {
                list.push(s);
            }
            i = i + 1;
        }
        assert(eligible@.take(i as int) =~= eligible@);
        if list.is_empty() {
            return Err(ProxyError::NotSynced);
        }
        proof {
            assert forall|m: int| 0 <= m < list@.len() implies (#[trigger] list@[m]) < n by {
                lemma_candidate(n as nat, skip@, *status, list@[m]);
            }
        }
        let mut sort_cache = new_ranks();
        let mut k: usize = 0;
        while k < list.len()
            invariant
                k <= list@.len(),
                n == self.servers().len() == status.utilization@.len(),
                forall|m: int| 0 <= m < list@.len() ==> (#[trigger] list@[m]) < n,
                forall|m: int|
                    0 <= m < k ==> ranks(sort_cache).contains_key(#[trigger] list@[m]),
                forall|s: usize| #[trigger]
                    ranks(sort_cache).contains_key(s) ==> ranks(sort_cache)[s] == rank_of(
                        self.servers(),
                        *status,
                        s,
                    ),
            decreases list@.len() - k,
        {
            let s: usize = list[k];
            let server = self.get(s).unwrap();
            put_rank(
                &mut sort_cache,
                s,
                (server.weight, status.utilization[s], server.soft_limit),
            );
            k = k + 1;
        }
        let order = sort_servers(&list, &sort_cache);
        proof {
            lemma_same_members(order@, list@);
            assert forall|m: int| 0 <= m < order@.len() implies ranks(sort_cache).contains_key(
                #[trigger] order@[m],
            ) by {
                assert(list@.contains(order@[m]));
            }
        }
        Ok(
            UpstreamSearch {
                order,
                asked: 0,
                found: false,
                earliest_retry_at: None,
                said: Ghost(Seq::empty()),
            },
        )
    }
}

proof fn lemma_same_members(a: Seq<usize>, b: Seq<usize>)
    requires
        a.to_multiset() == b.to_multiset(),
    ensures
        a.len() == b.len(),
        forall|s: usize| a.contains(s) <==> b.contains(s),
{
    a.to_multiset_ensures();
    b.to_multiset_ensures();
    assert forall|s: usize| a.contains(s) <==> b.contains(s) by {
        to_multiset_contains(a, s);
        to_multiset_contains(b, s);
    }
}

/// A search asks exactly the candidates: servers of the group that are not skipped and have the
/// needed block, or if none is needed are in sync.
pub proof fn law_search_asks_the_candidates(
    n: nat,
    skip: Seq<usize>,
    status: GroupStatus,
    order: Seq<usize>,
    s: usize,
)
    requires
        status.fits(n),
        n <= usize::MAX,
        order.to_multiset() == candidates(n, skip, status).to_multiset(),
    ensures
        order.contains(s) <==> {
            &&& s < n
            &&& !skip.contains(s)
            &&& match status.has_block_data {
                Some(has) => has@[s as int],
                None => status.synced@.contains(s),
            }
        },
{
    lemma_same_members(order, candidates(n, skip, status));
    let allowed = |x: usize| !skip.contains(x);
    let eligible = eligible_servers(n, status);
    if order.contains(s) {
        lemma_candidate(n, skip, status, s);
    } else if s < n && !skip.contains(s) {
        if eligible.contains(s) {
            let i = choose|i: int| 0 <= i < eligible.len() && eligible[i] == s;
            eligible.lemma_filter_contains(allowed, i);
        }
        if let Some(has) = status.has_block_data {
            if has@[s as int] {
                let wanted = |x: usize| has@[x as int];
                assert(all_places(n)[s as int] == s);
                all_places(n).lemma_filter_contains(wanted, s as int);
            }
        }
    }
}

/// A request to all servers is offered to exactly the servers of the group that have the needed
/// block, or to all of them if none is needed; and a server that was not asked does not take it.
pub proof fn law_only_servers_with_the_block_are_asked(
    n: nat,
    has_block_data: Option<Vec<bool>>,
    replies: Seq<HandleReply>,
    s: usize,
)
    requires
        n <= usize::MAX,
        has_block_data matches Some(has) ==> has@.len() == n,
        replies.len() == asked_servers(n, has_block_data).len(),
    ensures
        asked_servers(n, has_block_data).contains(s) <==> {
            &&& s < n
            &&& has_block_data matches Some(has) ==> has@[s as int]
        },
        takers(asked_servers(n, has_block_data), replies).contains(s) ==> {
            &&& s < n
            &&& has_block_data matches Some(has) ==> has@[s as int]
        },
{
    let asked = asked_servers(n, has_block_data);
    let places = all_places(n);
    if s < n {
        assert(places[s as int] == s);
    }
    if let Some(has) = has_block_data {
        let wanted = |x: usize| has@[x as int];
        if asked.contains(s) {
            let j = choose|j: int| 0 <= j < asked.len() && asked[j] == s;
            places.lemma_filter_pred(wanted, j);
            places.lemma_filter_contains_rev(wanted, s);
        } else if s < n && has@[s as int] {
            places.lemma_filter_contains(wanted, s as int);
        }
    }
    let pairs = with_replies(asked, replies);
    let taking = |a: (usize, HandleReply)| a.1 is ActiveRequest;
    if takers(asked, replies).contains(s) {
        let found = pairs.filter(taking);
        let k = choose|k: int| 0 <= k < found.len() && takers(asked, replies)[k] == s;
        assert(found.contains(found[k]));
        pairs.lemma_filter_contains_rev(taking, found[k]);
        let m = choose|m: int| 0 <= m < pairs.len() && pairs[m] == found[k];
        assert(asked[m] == s);
    }
}

/// Along the order in which servers are asked the weights never decrease.
pub proof fn law_weights_never_decrease(
    servers: Seq<(Seq<char>, u32, u32)>,
    status: GroupStatus,
    order: Seq<usize>,
    i: int,
    j: int,
)
    requires
        in_preferred_order(servers, status, order),
        0 <= i <= j < order.len(),
    ensures
        servers[order[i] as int].1 <= servers[order[j] as int].1,
{
    if i < j {
        assert(!preferred(
            rank_of(servers, status, order[j]),
            rank_of(servers, status, order[i]),
        ));
    }
}

/// Along the order in which servers are asked, among servers of equal weight whose utilizations
/// are numbers the utilizations never decrease, and among those of equal utilization the soft
/// limits never increase.
pub proof fn law_less_used_servers_come_first(
    servers: Seq<(Seq<char>, u32, u32)>,
    status: GroupStatus,
    order: Seq<usize>,
    i: int,
    j: int,
)
    requires
        in_preferred_order(servers, status, order),
        0 <= i <= j < order.len(),
        servers[order[i] as int].1 == servers[order[j] as int].1,
        status.utilization@[order[i] as int] is Some,
        status.utilization@[order[j] as int] is Some,
    ensures
        status.utilization@[order[i] as int]->Some_0 <= status.utilization@[order[j] as int]->Some_0,
        status.utilization@[order[i] as int] == status.utilization@[order[j] as int]
            ==> servers[order[i] as int].2 >= servers[order[j] as int].2,
{
    if i < j {
        assert(!preferred(
            rank_of(servers, status, order[j]),
            rank_of(servers, status, order[i]),
        ));
    }
}

/// There is no candidate if and only if every server of the group is skipped, lacks the needed
/// block, or if none is needed is out of sync.
pub proof fn law_no_candidate_means_no_server(n: nat, skip: Seq<usize>, status: GroupStatus)
    requires
        status.fits(n),
        n <= usize::MAX,
    ensures
        candidates(n, skip, status).len() == 0 <==> forall|s: usize|
            s < n ==> {
                ||| #[trigger] skip.contains(s)
                ||| match status.has_block_data {
                    Some(held) => !held@[s as int],
                    None => !status.synced@.contains(s),
                }
            },
{
    let c = candidates(n, skip, status);
    if c.len() == 0 {
        assert forall|s: usize| s < n implies {
            ||| #[trigger] skip.contains(s)
            ||| match status.has_block_data {
                Some(held) => !held@[s as int],
                None => !status.synced@.contains(s),
            }
        } by {
            law_search_asks_the_candidates(n, skip, status, c, s);
            assert(!c.contains(s));
        }
    } else {
        let s = c[0];
        assert(c.contains(s));
        law_search_asks_the_candidates(n, skip, status, c, s);
        assert(!skip.contains(s));
    }
}

/// A server is asked as often as it stands among those in sync, or once if a block is needed that
/// it has; and not at all if it is skipped.
pub proof fn law_server_is_asked_as_often_as_it_is_listed(
    n: nat,
    skip: Seq<usize>,
    status: GroupStatus,
    order: Seq<usize>,
    s: usize,
)
    requires
        status.fits(n),
        n <= usize::MAX,
        order.to_multiset() == candidates(n, skip, status).to_multiset(),
    ensures
        skip.contains(s) ==> order.to_multiset().count(s) == 0,
        !skip.contains(s) && status.has_block_data is None ==> order.to_multiset().count(s)
            == status.synced@.to_multiset().count(s),
        status.has_block_data is Some ==> order.to_multiset().count(s) <= 1,
{
    let eligible = eligible_servers(n, status);
    lemma_count_of_filter(eligible, |x: usize| !skip.contains(x), s);
    if let Some(has) = status.has_block_data {
        let places = all_places(n);
        lemma_count_of_filter(places, |x: usize| has@[x as int], s);
        assert(places.no_duplicates());
        places.lemma_multiset_has_no_duplicates();
        assert(places.to_multiset().count(s) <= 1) by {
            if places.to_multiset().count(s) > 0 {
                assert(places.to_multiset().contains(s));
            }
        }
    }
}

proof fn lemma_count_of_filter<A>(list: Seq<A>, p: spec_fn(A) -> bool, x: A)
    ensures
        list.filter(p).to_multiset().count(x) == if p(x) {
            list.to_multiset().count(x)
        } else {
            0
        },
    decreases list.len(),
{
    list.to_multiset_ensures();
    list.filter(p).to_multiset_ensures();
    if list.len() == 0 {
        list.lemma_filter_len(p);
        assert(list.filter(p) =~= list);
        assert(list.to_multiset().count(x) == 0) by {
            if list.to_multiset().count(x) > 0 {
                to_multiset_contains(list, x);
            }
        }
    } else {
        let shorter = list.drop_last();
        let last = list.last();
        lemma_count_of_filter(shorter, p, x);
        assert(list =~= shorter.push(last));
        shorter.lemma_filter_push(last, p);
        to_multiset_build(shorter, last);
        to_multiset_build(shorter.filter(p), last);
    }
}

/// The time that is given if no server takes a request was named by a server, and no server named
/// an earlier one. There is none if no server named one.
pub proof fn law_earliest_time_is_the_smallest_named(replies: Seq<HandleReply>, t: Option<u64>)
    requires
        is_earliest(retry_times(replies), t),
    ensures
        t matches Some(first) ==> replies.contains(HandleReply::RetryAt(first)),
        forall|i: int|
            0 <= i < replies.len() && #[trigger] replies[i] is RetryAt ==> t is Some && t->Some_0
                <= replies[i]->RetryAt_0,
        t is None ==> forall|i: int|
            0 <= i < replies.len() ==> !(#[trigger] replies[i] is RetryAt),
{
    let times = retry_times(replies);
    assert forall|i: int| 0 <= i < replies.len() implies #[trigger] times[i] == retry_time(
        replies[i],
    ) by {}
    if let Some(first) = t {
        let i = choose|i: int| 0 <= i < times.len() && #[trigger] times[i] == Some(first);
        assert(replies[i] == HandleReply::RetryAt(first));
    }
    assert forall|i: int|
        0 <= i < replies.len() && #[trigger] replies[i] is RetryAt implies t is Some && t->Some_0
        <= replies[i]->RetryAt_0 by {
        assert(times[i] == Some(replies[i]->RetryAt_0));
    }
    if t is None {
        assert forall|i: int| 0 <= i < replies.len() implies !(
        #[trigger] replies[i] is RetryAt) by {
            assert(times[i] is None);
        }
    }
}

/// A request to all servers goes to exactly those of the servers asked that said they take it, as
/// many as said so, in the order of their places.
pub proof fn law_request_goes_to_all_that_take_it(
    n: nat,
    has_block_data: Option<Vec<bool>>,
    replies: Seq<HandleReply>,
)
    requires
        n <= usize::MAX,
        has_block_data matches Some(has) ==> has@.len() == n,
        replies.len() == asked_servers(n, has_block_data).len(),
    ensures
        takers(asked_servers(n, has_block_data), replies).len() == replies.filter(
            |r: HandleReply| r == HandleReply::ActiveRequest,
        ).len(),
        forall|i: int|
            0 <= i < replies.len() && #[trigger] replies[i] == HandleReply::ActiveRequest
                ==> takers(asked_servers(n, has_block_data), replies).contains(
                asked_servers(n, has_block_data)[i],
            ),
        forall|j: int, k: int|
            0 <= j < k < takers(asked_servers(n, has_block_data), replies).len() ==> (
            #[trigger] takers(asked_servers(n, has_block_data), replies)[j]) < (
            #[trigger] takers(asked_servers(n, has_block_data), replies)[k]),
        forall|j: int, k: int|
            0 <= j < k < asked_servers(n, has_block_data).len() ==> (#[trigger] asked_servers(
                n,
                has_block_data,
            )[j]) < (#[trigger] asked_servers(n, has_block_data)[k]),
{
    let asked = asked_servers(n, has_block_data);
    let places = all_places(n);
    let pairs = with_replies(asked, replies);
    let taking = |a: (usize, HandleReply)| a.1 is ActiveRequest;
    let said = |r: HandleReply| r == HandleReply::ActiveRequest;
    let by_place = |s: usize| s as int;
    let by_first = |a: (usize, HandleReply)| a.0 as int;
    if let Some(has) = has_block_data {
        lemma_filter_keeps_order(places, |s: usize| has@[s as int], by_place);
        assert forall|j: int, k: int| 0 <= j < k < asked.len() implies (#[trigger] asked[j]) < (
        #[trigger] asked[k]) by {
            assert(by_place(asked[j]) < by_place(asked[k]));
        }
    }
    lemma_filter_keeps_order(pairs, taking, by_first);
    let found = pairs.filter(taking);
    assert forall|j: int, k: int|
        0 <= j < k < takers(asked, replies).len() implies (#[trigger] takers(asked, replies)[j]) < (
    #[trigger] takers(asked, replies)[k]) by {
        assert(by_first(found[j]) < by_first(found[k]));
    }
    assert forall|i: int|
        0 <= i < replies.len() && #[trigger] replies[i]
            == HandleReply::ActiveRequest implies takers(asked, replies).contains(asked[i]) by {
        pairs.lemma_filter_contains(taking, i);
        let k = choose|k: int| 0 <= k < found.len() && found[k] == pairs[i];
        assert(takers(asked, replies)[k] == asked[i]);
    }
    lemma_pairs_count(asked, replies);
}

proof fn lemma_pairs_count(asked: Seq<usize>, replies: Seq<HandleReply>)
    requires
        asked.len() == replies.len(),
    ensures
        with_replies(asked, replies).filter(
            |a: (usize, HandleReply)| a.1 is ActiveRequest,
        ).len() == replies.filter(|r: HandleReply| r == HandleReply::ActiveRequest).len(),
    decreases asked.len(),
{
    let pairs = with_replies(asked, replies);
    let taking = |a: (usize, HandleReply)| a.1 is ActiveRequest;
    let said = |r: HandleReply| r == HandleReply::ActiveRequest;
    if asked.len() == 0 {
        pairs.lemma_filter_len(taking);
        replies.lemma_filter_len(said);
    } else {
        lemma_pairs_count(asked.drop_last(), replies.drop_last());
        let shorter = with_replies(asked.drop_last(), replies.drop_last());
        assert(pairs =~= shorter.push(pairs.last()));
        assert(replies =~= replies.drop_last().push(replies.last()));
        shorter.lemma_filter_len_push(taking, pairs.last());
        replies.drop_last().lemma_filter_len_push(said, replies.last());
    }
}

proof fn lemma_filter_keeps_order<A>(list: Seq<A>, p: spec_fn(A) -> bool, key: spec_fn(A) -> int)
    requires
        forall|i: int, j: int|
            0 <= i < j < list.len() ==> key(#[trigger] list[i]) < key(#[trigger] list[j]),
    ensures
        forall|i: int, j: int|
            0 <= i < j < list.filter(p).len() ==> key(#[trigger] list.filter(p)[i]) < key(
                #[trigger] list.filter(p)[j],
            ),
    decreases list.len(),
{
    if list.len() == 0 {
        list.lemma_filter_len(p);
    } else {
        let shorter = list.drop_last();
        let last = list.last();
        lemma_filter_keeps_order(shorter, p, key);
        assert(list =~= shorter.push(last));
        shorter.lemma_filter_push(last, p);
        let kept = shorter.filter(p);
        assert forall|i: int, j: int| 0 <= i < j < list.filter(p).len() implies key(
            #[trigger] list.filter(p)[i],
        ) < key(#[trigger] list.filter(p)[j]) by {
            assert(list.filter(p)[i] == kept[i]);
            if j < kept.len() {
                assert(list.filter(p)[j] == kept[j]);
            } else {
                assert(kept.contains(kept[i]));
                shorter.lemma_filter_contains_rev(p, kept[i]);
                let m = choose|m: int| 0 <= m < shorter.len() && shorter[m] == kept[i];
                assert(list[m] == shorter[m]);
                assert(list[list.len() - 1] == last);
            }
        }
    }
}

/// Servers are tried from the best to the worst: while nothing changes, the search that follows
/// one in which a server took the request does not ask that server, and every
/// server it asks that is preferred to that server was asked before it and did not take the
/// request.
pub proof fn law_servers_are_tried_from_best_to_worst(
    servers: Seq<(Seq<char>, u32, u32)>,
    skip: Seq<usize>,
    status: GroupStatus,
    order: Seq<usize>,
    replies: Seq<HandleReply>,
    next_order: Seq<usize>,
    i: int,
)
    requires
        servers.len() <= usize::MAX,
        status.fits(servers.len()),
        order.to_multiset() == candidates(servers.len(), skip, status).to_multiset(),
        in_preferred_order(servers, status, order),
        0 < replies.len() <= order.len(),
        forall|j: int|
            0 <= j < replies.len() - 1 ==> !(#[trigger] replies[j] is ActiveRequest),
        next_order.to_multiset() == candidates(
            servers.len(),
            skip.push(order[replies.len() - 1]),
            status,
        ).to_multiset(),
        0 <= i < next_order.len(),
    ensures
        next_order[i] != order[replies.len() - 1],
        preferred(
            rank_of(servers, status, next_order[i]),
            rank_of(servers, status, order[replies.len() - 1]),
        ) ==> exists|j: int|
            0 <= j < replies.len() - 1 && #[trigger] order[j] == next_order[i] && !(
            replies[j] is ActiveRequest),
{
    let n = servers.len();
    let taken = replies.len() - 1;
    let s = next_order[i];
    let longer = skip.push(order[taken]);
    assert(next_order.contains(s));
    law_search_asks_the_candidates(n, longer, status, next_order, s);
    law_search_asks_the_candidates(n, skip, status, order, s);
    assert(longer[skip.len() as int] == order[taken]);
    if skip.contains(s) {
        let k = choose|k: int| 0 <= k < skip.len() && skip[k] == s;
        assert(longer[k] == s);
    }
    let j = choose|j: int| 0 <= j < order.len() && order[j] == s;
    assert(j != taken);
}

/// A candidate is a server of the group, is not skipped, and has the needed block, or if none is
/// needed is in sync.
pub proof fn lemma_candidate(n: nat, skip: Seq<usize>, status: GroupStatus, s: usize)
    requires
        status.fits(n),
        n <= usize::MAX,
        candidates(n, skip, status).contains(s),
    ensures
        s < n,
        !skip.contains(s),
        status.has_block_data matches Some(has) ==> has@[s as int],
        status.has_block_data is None ==> status.synced@.contains(s),
{
    let allowed = |x: usize| !skip.contains(x);
    let eligible = eligible_servers(n, status);
    let i = choose|i: int| 0 <= i < eligible.filter(allowed).len() && eligible.filter(allowed)[i] == s;
    eligible.lemma_filter_pred(allowed, i);
    eligible.lemma_filter_contains_rev(allowed, s);
    if let Some(has) = status.has_block_data {
        let wanted = |x: usize| has@[x as int];
        let places = all_places(n);
        let j = choose|j: int| 0 <= j < places.filter(wanted).len() && places.filter(wanted)[j] == s;
        places.lemma_filter_pred(wanted, j);
        places.lemma_filter_contains_rev(wanted, s);
    }
}

} // verus!
