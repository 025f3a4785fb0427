//! Sending a request to the best server, or to all servers.

use vstd::prelude::*;

use crate::connections::Web3Connections;
use crate::error::ProxyError;
use crate::jsonrpc::{is_success, JsonRpcForwardedResponse, ProviderError};
use crate::quorum::{
    is_quorum, law_returned_error_is_the_most_common_one,
    law_returned_result_is_the_most_common_one,
};
use crate::text::starts_with;
use crate::upstream::{candidates, lemma_candidate, GroupStatus, OpenRequestResult};

verus! {

/// What has happened to a request that goes to the best server.
#[derive(Debug, PartialEq, Eq)]
pub enum BestEvent {
    /// The request has come in.
    Started,
    /// A server has been looked for.
    Searched(Result<OpenRequestResult, ProxyError>),
    /// The server has been sent the request. Its reply is absent if the server failed.
    Answered(Option<JsonRpcForwardedResponse>),
    /// The wait is over.
    Slept,
}

/// What to do next for a request that goes to the best server.
#[derive(Debug, PartialEq, Eq)]
pub enum BestStep {
    /// Look for the best server that has not been tried.
    Search,
    /// Send the request to the server at this place.
    Send(usize),
    /// Wait.
    SleepMillis(u64),
    /// Wait until the given time.
    SleepUntil(u64),
    /// Answer with this reply.
    Reply(JsonRpcForwardedResponse),
    /// Give up.
    Fail(ProxyError),
}

/// What has happened to a request that goes to all servers.
#[derive(Debug, PartialEq, Eq)]
pub enum AllEvent {
    /// The request has come in.
    Started,
    /// The servers have been asked to take the request.
    Asked(Result<Vec<usize>, Option<u64>>),
    /// The servers have answered.
    Answered(Vec<Result<String, ProviderError>>),
    /// The wait is over.
    Slept,
}

/// What to do next for a request that goes to all servers.
#[derive(Debug, PartialEq, Eq)]
pub enum AllStep {
    /// Ask the servers to take the request.
    Ask,
    /// Send the request to the servers at these places.
    Send(Vec<usize>),
    /// Wait.
    SleepMillis(u64),
    /// Wait until the given time.
    SleepUntil(u64),
    /// Answer with this reply.
    Reply(JsonRpcForwardedResponse),
    /// Give up with this error.
    Fail(ProviderError),
}

/// The beginnings of messages of errors that another server may not have.
pub open spec fn retry_prefixes() -> Seq<Seq<char>> {
    seq![
        "header not found"@,
        "header for hash not found"@,
        "missing trie node"@,
        "node not started"@,
        "RPC timeout"@,
    ]
}

/// The reply is an error that should be retried on another server.
pub open spec fn should_retry(reply: JsonRpcForwardedResponse) -> bool {
    reply.error matches Some(e) && e.code == -32000 && exists|i: int|
        0 <= i < retry_prefixes().len() && #[trigger] retry_prefixes()[i].is_prefix_of(e.message@)
}

/// Whether the reply is an error that should be retried on another server.
pub fn is_retryable(reply: &JsonRpcForwardedResponse) -> (r: bool)
    ensures
        r == should_retry(*reply),
{
    match &reply.error {
        None => false,
        Some(e) => {
            let message = e.message.as_str();
            let r: bool = e.code == -32000 && (starts_with(message, "header not found")
                || starts_with(message, "header for hash not found") || starts_with(
                message,
                "missing trie node",
            ) || starts_with(message, "node not started") || starts_with(message, "RPC timeout"));
            proof {
                let p = retry_prefixes();
                assert(p[0] == "header not found"@);
                assert(p[1] == "header for hash not found"@);
                assert(p[2] == "missing trie node"@);
                assert(p[3] == "node not started"@);
                assert(p[4] == "RPC timeout"@);
            }
            r
        },
    }
}

/// A request on its way to the best server. It is sent to one server after the other until one
/// gives a reply that need not be retried.
pub struct BestUpstream {
    skip_rpcs: Vec<usize>,
    limit: usize,
}

impl BestUpstream {
    /// The servers that the request has been sent to, in order.
    pub closed spec fn tried(self) -> Seq<usize> {
        self.skip_rpcs@
    }

    /// The number of servers of the group.
    pub closed spec fn group_size(self) -> nat {
        self.limit as nat
    }

    /// The servers that the request has been sent to.
    pub fn skipped(&self) -> (r: &Vec<usize>)
        ensures
            r@ == self.tried(),
    {
        &self.skip_rpcs
    }

    /// Looks for another server unless as many have been tried as there are.
    pub open spec fn search_or_fail(self) -> BestStep {
        if self.tried().len() == self.group_size() {
            BestStep::Fail(ProxyError::RetriesExhausted)
        } else {
            BestStep::Search
        }
    }

    /// The servers that the request has been sent to after `event`.
    pub open spec fn tried_after(self, event: BestEvent) -> Seq<usize> {
        match event {
            BestEvent::Searched(Ok(OpenRequestResult::ActiveRequest(s))) => self.tried().push(s),
            _ => self.tried(),
        }
    }

    /// What is to be done after `event`.
    pub open spec fn step_after(self, event: BestEvent) -> BestStep {
        match event {
            BestEvent::Started => self.search_or_fail(),
            BestEvent::Slept => self.search_or_fail(),
            BestEvent::Searched(Ok(OpenRequestResult::ActiveRequest(s))) => BestStep::Send(s),
            BestEvent::Searched(Ok(OpenRequestResult::RetryAt(t))) => BestStep::SleepUntil(t),
            BestEvent::Searched(Ok(OpenRequestResult::Unavailable)) => BestStep::SleepMillis(200),
            BestEvent::Searched(Err(e)) => BestStep::Fail(e),
            BestEvent::Answered(Some(reply)) => if should_retry(reply) {
                self.search_or_fail()
            } else {
                BestStep::Reply(reply)
            },
            BestEvent::Answered(None) => BestStep::SleepMillis(100),
        }
    }

    /// A request fails only with the error of a search, or because as many servers have been
    /// tried as there are. Until then it goes on to another server when it has come in, when a
    /// wait is over, and after a reply that is not passed on.
    pub proof fn law_request_goes_on_while_servers_are_left(self, event: BestEvent)
        ensures
            self.step_after(event) matches BestStep::Fail(e) ==> {
                ||| event == BestEvent::Searched(Err(e))
                ||| e == ProxyError::RetriesExhausted && self.tried().len() == self.group_size()
            },
            self.tried().len() != self.group_size() && (event is Started || event is Slept)
                ==> self.step_after(event) == BestStep::Search,
            self.tried().len() == self.group_size() && (event is Started || event is Slept)
                ==> self.step_after(event) == BestStep::Fail(ProxyError::RetriesExhausted),
            event matches BestEvent::Answered(Some(reply)) ==> {
                ||| self.step_after(event) == BestStep::Reply(reply)
                ||| self.step_after(event) == self.step_after(BestEvent::Slept)
            },
            event matches BestEvent::Searched(Err(e)) ==> self.step_after(event) == BestStep::Fail(e),
    {
    }

    /// When a request fails because all retries are exhausted, every server has been tried, if
    /// each was found by a search that skipped those tried before. As long as some server has not
    /// been tried the request goes on.
    pub proof fn law_every_server_is_tried_before_giving_up(
        self,
        statuses: Seq<GroupStatus>,
        event: BestEvent,
        s: usize,
    )
        requires
            self.group_size() <= usize::MAX,
            found_in_turn(self.group_size(), statuses, self.tried()),
            event is Started || event is Slept || event is Answered,
            s < self.group_size(),
        ensures
            self.step_after(event) == BestStep::Fail(ProxyError::RetriesExhausted)
                ==> self.tried().contains(s),
            !self.tried().contains(s) && (event is Started || event is Slept) ==> self.step_after(
                event,
            ) == BestStep::Search,
    {
        law_no_server_is_tried_twice(self.group_size(), statuses, self.tried());
    }

    /// The reply of a server is passed on unchanged, unless it is an error with the code -32000
    /// whose message begins in one of five ways.
    pub proof fn law_reply_is_passed_on_unless_it_is_retried(self, reply: JsonRpcForwardedResponse)
        ensures
            self.step_after(BestEvent::Answered(Some(reply))) == BestStep::Reply(reply) <==> !(
            reply.error is Some && reply.error->Some_0.code == -32000 && {
                ||| "header not found"@.is_prefix_of(reply.error->Some_0.message@)
                ||| "header for hash not found"@.is_prefix_of(reply.error->Some_0.message@)
                ||| "missing trie node"@.is_prefix_of(reply.error->Some_0.message@)
                ||| "node not started"@.is_prefix_of(reply.error->Some_0.message@)
                ||| "RPC timeout"@.is_prefix_of(reply.error->Some_0.message@)
            }),
            self.step_after(BestEvent::Answered(Some(reply))) matches BestStep::Reply(passed)
                ==> passed == reply,
    {
        let p = retry_prefixes();
        assert(p[0] == "header not found"@);
        assert(p[1] == "header for hash not found"@);
        assert(p[2] == "missing trie node"@);
        assert(p[3] == "node not started"@);
        assert(p[4] == "RPC timeout"@);
    }

    /// The server that takes the request gets it and counts as tried; nothing else makes a server
    /// count as tried. A time that was given is waited for, and a server that fails or is missing
    /// leads to a short wait.
    pub proof fn law_request_goes_to_the_server_that_takes_it(self, event: BestEvent)
        ensures
            event matches BestEvent::Searched(Ok(OpenRequestResult::ActiveRequest(s))) ==> {
                &&& self.step_after(event) == BestStep::Send(s)
                &&& self.tried_after(event) == self.tried().push(s)
            },
            !(self.step_after(event) is Send) ==> self.tried_after(event) == self.tried(),
            event matches BestEvent::Searched(Ok(OpenRequestResult::RetryAt(t)))
                ==> self.step_after(event) == BestStep::SleepUntil(t),
            event == BestEvent::Answered(None) ==> self.step_after(event) == BestStep::SleepMillis(
                100,
            ),
            event == BestEvent::Searched(Ok(OpenRequestResult::Unavailable)) ==> self.step_after(
                event,
            ) == BestStep::SleepMillis(200),
    {
    }

    fn next_step(&self) -> (r: BestStep)
        ensures
            r == self.search_or_fail(),
    {
        if self.skip_rpcs.len() == self.limit {
            BestStep::Fail(ProxyError::RetriesExhausted)
        } else {
            BestStep::Search
        }
    }

    /// What to do after `event`. The server that takes the request will not be tried again. A
    /// server that fails, and an error that should be retried, lead to another server; any other
    /// reply is the answer.
    pub fn step(&mut self, event: BestEvent) -> (r: BestStep)
        ensures
            final(self).group_size() == old(self).group_size(),
            final(self).tried() == old(self).tried_after(event),
            r == old(self).step_after(event),
            r == BestStep::Fail(ProxyError::RetriesExhausted) ==> {
                ||| old(self).tried().len() == old(self).group_size()
                ||| event == BestEvent::Searched(Err(ProxyError::RetriesExhausted))
            },
            r matches BestStep::Send(s) ==> final(self).tried() == old(self).tried().push(s),
    {
        match event {
            BestEvent::Started => self.next_step(),
            BestEvent::Slept => self.next_step(),
            BestEvent::Searched(Ok(OpenRequestResult::ActiveRequest(s))) => {
                // save the server in case we get an error and want to retry on another one
                self.skip_rpcs.push(s);
                BestStep::Send(s)
            },
            BestEvent::Searched(Ok(OpenRequestResult::RetryAt(t))) => BestStep::SleepUntil(t),
            BestEvent::Searched(Ok(OpenRequestResult::Unavailable)) => BestStep::SleepMillis(200),
            BestEvent::Searched(Err(e)) => BestStep::Fail(e),
            BestEvent::Answered(Some(reply)) => if is_retryable(&reply) {
                self.next_step()
            } else {
                BestStep::Reply(reply)
            },
            BestEvent::Answered(None) => BestStep::SleepMillis(100),
        }
    }
}

/// `r` is right after `event`, for a request with the id `id` that goes to all servers.
pub open spec fn is_all_step(id: Seq<char>, event: AllEvent, r: AllStep) -> bool {
    match event {
        AllEvent::Started => r == AllStep::Ask,
        AllEvent::Slept => r == AllStep::Ask,
        AllEvent::Asked(Ok(servers)) => r == AllStep::Send(servers),
        AllEvent::Asked(Err(None)) => r == AllStep::SleepMillis(200),
        AllEvent::Asked(Err(Some(t))) => r == AllStep::SleepUntil(t),
        AllEvent::Answered(answers) => exists|w: int| #[trigger]
            is_quorum(answers@, w) && match answers@[w] {
                Ok(json) => r matches AllStep::Reply(reply) && is_success(reply, id, json@),
                Err(e) => r == AllStep::Fail(e),
            },
    }
}

/// The client gets a result that some server gave, and that at least as many servers gave as any
/// other result, under the id of its request.
pub proof fn law_client_gets_the_most_common_result(
    id: Seq<char>,
    answers: Vec<Result<String, ProviderError>>,
    r: AllStep,
    j: int,
)
    requires
        is_all_step(id, AllEvent::Answered(answers), r),
        0 <= j < answers@.len(),
        answers@[j] is Ok,
    ensures
        r is Reply,
        r->Reply_0.jsonrpc@ == "2.0"@,
        r->Reply_0.id@ == id,
        r->Reply_0.error is None,
        r->Reply_0.result is Some,
        exists|i: int|
            0 <= i < answers@.len() && (#[trigger] answers@[i]) is Ok && answers@[i]->Ok_0@
                == r->Reply_0.result->Some_0@,
        answers@.filter(
            |a: Result<String, ProviderError>| a is Ok && a->Ok_0@ == answers@[j]->Ok_0@,
        ).len() <= answers@.filter(
            |a: Result<String, ProviderError>|
                a is Ok && a->Ok_0@ == r->Reply_0.result->Some_0@,
        ).len(),
{
    let w = choose|w: int| #[trigger]
        is_quorum(answers@, w) && match answers@[w] {
            Ok(json) => r matches AllStep::Reply(reply) && is_success(reply, id, json@),
            Err(e) => r == AllStep::Fail(e),
        };
    law_returned_result_is_the_most_common_one(answers@, w, j);
}

/// If no server gave a result the request fails with an error that some server gave.
pub proof fn law_request_fails_only_if_all_servers_failed(
    id: Seq<char>,
    answers: Vec<Result<String, ProviderError>>,
    r: AllStep,
)
    requires
        is_all_step(id, AllEvent::Answered(answers), r),
    ensures
        r is Reply || r is Fail,
        r is Fail <==> forall|j: int| 0 <= j < answers@.len() ==> (#[trigger] answers@[j]) is Err,
        r matches AllStep::Fail(e) ==> exists|i: int|
            0 <= i < answers@.len() && (#[trigger] answers@[i]) is Err && answers@[i]->Err_0 == e,
{
    let w = choose|w: int| #[trigger]
        is_quorum(answers@, w) && match answers@[w] {
            Ok(json) => r matches AllStep::Reply(reply) && is_success(reply, id, json@),
            Err(e) => r == AllStep::Fail(e),
        };
    if answers@[w] is Err {
        assert forall|j: int| 0 <= j < answers@.len() implies (#[trigger] answers@[j]) is Err by {
            law_returned_error_is_the_most_common_one(answers@, w, j);
        }
    }
}

/// The request goes to the servers that take it. Without any it waits until the time that was
/// given, or for a moment, and the servers are asked again.
pub proof fn law_servers_are_asked_until_one_takes_the_request(
    id: Seq<char>,
    event: AllEvent,
    r: AllStep,
)
    requires
        is_all_step(id, event, r),
        !(event is Answered),
    ensures
        r is Ask <==> event is Started || event is Slept,
        event matches AllEvent::Asked(Ok(servers)) ==> r == AllStep::Send(servers),
        event matches AllEvent::Asked(Err(Some(t))) ==> r == AllStep::SleepUntil(t),
        event matches AllEvent::Asked(Err(None)) ==> r == AllStep::SleepMillis(200),
{
}

impl Web3Connections {
    /// Starts sending a request to the best server.
    pub fn try_send_best_upstream_server(&self) -> (r: BestUpstream)
        ensures
            r.tried().len() == 0,
            r.group_size() == self.servers().len(),
    {
        BestUpstream { skip_rpcs: Vec::new(), limit: self.len() }
    }

    /// What to do after `event` for a request with the id `id` that goes to all servers that take
    /// it. If there is none, it waits until the time that was given, or for a moment if none was,
    /// and asks again. The reply is the success that the servers agree on, or an error if all of
    /// them failed.
    pub fn try_send_all_upstream_servers(&self, id: &String, event: AllEvent) -> (r: AllStep)
        requires
            event matches AllEvent::Answered(answers) ==> answers@.len() > 0,
        ensures
            is_all_step(id@, event, r),
            event matches AllEvent::Asked(Ok(servers)) ==> r == AllStep::Send(servers),
            event matches AllEvent::Asked(Err(Some(t))) ==> r == AllStep::SleepUntil(t),
    {
        match event {
            AllEvent::Started => AllStep::Ask,
            AllEvent::Slept => AllStep::Ask,
            AllEvent::Asked(Ok(servers)) => AllStep::Send(servers),
            AllEvent::Asked(Err(None)) => AllStep::SleepMillis(200),
            AllEvent::Asked(Err(Some(t))) => AllStep::SleepUntil(t),
            AllEvent::Answered(answers) => match self.try_send_parallel_requests(answers) {
                Ok(json) => AllStep::Reply(JsonRpcForwardedResponse::success(id.clone(), json)),
                Err(e) => AllStep::Fail(e),
            },
        }
    }
}

/// `tried` are servers that were found one after the other, each by a search that skipped those
/// before it.
pub open spec fn found_in_turn(n: nat, statuses: Seq<GroupStatus>, tried: Seq<usize>) -> bool {
    &&& statuses.len() == tried.len()
    &&& forall|k: int|
        0 <= k < tried.len() ==> {
            &&& (#[trigger] statuses[k]).fits(n)
            &&& candidates(n, tried.take(k), statuses[k]).contains(tried[k])
        }
}

/// A request is sent to no server twice, so it is sent at most as often as there are servers; and
/// when as many have been tried as there are, every server has been tried.
pub proof fn law_no_server_is_tried_twice(n: nat, statuses: Seq<GroupStatus>, tried: Seq<usize>)
    requires
        n <= usize::MAX,
        found_in_turn(n, statuses, tried),
    ensures
        tried.no_duplicates(),
        tried.len() <= n,
        tried.len() == n ==> forall|s: usize| s < n ==> tried.contains(s),
{
    assert forall|i: int, j: int| 0 <= i < j < tried.len() implies tried[i] != tried[j] by {
        lemma_candidate(n, tried.take(j), statuses[j], tried[j]);
        assert(tried.take(j)[i] == tried[i]);
    }
    assert forall|i: int| 0 <= i < tried.len() implies (#[trigger] tried[i]) < n by {
        lemma_candidate(n, tried.take(i), statuses[i], tried[i]);
    }
    lemma_places_run_out(n, tried);
}

/// Distinct places among `n` are at most `n`, and if they are `n` they are all places.
proof fn lemma_places_run_out(n: nat, places: Seq<usize>)
    requires
        places.no_duplicates(),
        forall|i: int| 0 <= i < places.len() ==> (#[trigger] places[i]) < n,
    ensures
        places.len() <= n,
        places.len() == n ==> forall|s: usize| s < n ==> places.contains(s),
    decreases n,
{
    if n == 0 {
        if places.len() > 0 {
            assert(places[0] < n);
        }
    } else {
        let last = (n - 1) as nat;
        if exists|i: int| 0 <= i < places.len() && places[i] == last {
            let i = choose|i: int| 0 <= i < places.len() && places[i] == last;
            let rest = places.remove(i);
            assert forall|j: int| 0 <= j < rest.len() implies (#[trigger] rest[j]) < last by {
                let k = if j < i {
                    j
                } else {
                    j + 1
                };
                assert(rest[j] == places[k]);
                assert(places[k] != places[i]);
            }
            assert(rest.no_duplicates());
            lemma_places_run_out(last, rest);
            assert forall|s: usize| places.len() == n && s < n implies places.contains(s) by {
                if s != last {
                    assert(rest.contains(s));
                    let j = choose|j: int| 0 <= j < rest.len() && rest[j] == s;
                    assert(places[if j < i {
                        j
                    } else {
                        j + 1
                    }] == s);
                }
            }
        } else {
            assert forall|j: int| 0 <= j < places.len() implies (#[trigger] places[j]) < last by {
                assert(places[j] < n);
            }
            lemma_places_run_out(last, places);
        }
    }
}

} // verus!
