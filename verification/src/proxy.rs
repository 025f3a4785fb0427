//! The application: which servers a request goes to, and what becomes of it.

use std::sync::Arc;
use vstd::prelude::*;
use vstd::string::*;

use crate::cache::{
    cached, copy_key, is_cache, key_of, key_parts, new_key, params_text, CacheKey, KeyParts,
    ResponseCache,
};
use crate::connections::Web3Connections;
use crate::in_flight::{enter, leave, no_requests, ticket_of, tickets, ActiveRequestsMap};
use crate::json::{json_text, value_text};
use crate::error::ProxyError;
use crate::jsonrpc::{
    copy_text, JsonRpcForwardedResponse, JsonRpcForwardedResponseEnum, JsonRpcRequest,
    JsonRpcRequestEnum,
};
use crate::run::{
    after_round, begins, is_next, new_course, next_course, ProxyEvent, ProxyRun, ProxyState,
    ProxyStep, Reaction, MAX_ROUNDS,
};
use crate::text::same_text;

verus! {

/// How many seconds a client's request may take.
pub const MAX_SECONDS: u64 = 60;

/// What the application needs to connect to its servers.
pub struct StartupPlan {
    /// How many seconds connecting to a server may take.
    pub connect_seconds: u64,
    /// How many seconds a request to a server may take.
    pub request_seconds: u64,
    pub user_agent: String,
    /// The address of the rate limiter, if requests are limited.
    pub redis_address: Option<String>,
    /// Private requests have servers of their own.
    pub has_private_rpcs: bool,
}

impl StartupPlan {
    /// The plan for an application of the given name and version.
    pub fn new(
        name: &str,
        version: &str,
        redis_address: Option<String>,
        private_rpcs: usize,
    ) -> (r: Self)
        ensures
            r.connect_seconds == 5,
            r.request_seconds == 60,
            r.user_agent@ == "satoshiandkin/"@ + name@ + "/"@ + version@,
            r.redis_address == redis_address,
            r.has_private_rpcs == (private_rpcs > 0),
    {
        StartupPlan {
            connect_seconds: 5,
            request_seconds: 60,
            user_agent: "satoshiandkin/".to_owned().concat(name).concat("/").concat(version),
            redis_address,
            has_private_rpcs: private_rpcs > 0,
        }
    }
}

/// The application.
pub struct Web3ProxyApp {
    balanced_rpcs: Arc<Web3Connections>,
    private_rpcs: Arc<Web3Connections>,
    incoming_requests: ActiveRequestsMap,
    response_cache: ResponseCache,
}

/// The requests that a client sent, and how long they may take.
pub struct ProxyPlan {
    pub max_seconds: u64,
    pub is_batch: bool,
    pub requests: Vec<JsonRpcRequest>,
}

impl ProxyPlan {
    /// Puts the replies together. If a request failed, the whole fails, with the error of the
    /// first that did.
    pub fn finish<E>(&self, results: Vec<Result<JsonRpcForwardedResponse, E>>) -> (r: Result<
        JsonRpcForwardedResponseEnum,
        E,
    >)
        requires
            results@.len() == self.requests@.len(),
            !self.is_batch ==> self.requests@.len() == 1,
        ensures
            r matches Ok(JsonRpcForwardedResponseEnum::Single(reply)) ==> {
                &&& !self.is_batch
                &&& results@[0] == Ok::<JsonRpcForwardedResponse, E>(reply)
            },
            r matches Ok(JsonRpcForwardedResponseEnum::Batch(replies)) ==> {
                &&& self.is_batch
                &&& all_replies(results@, replies@)
            },
            r matches Err(e) ==> fails_with(results@, e),
    {
        if self.is_batch {
            match Web3ProxyApp::proxy_web3_rpc_requests(results) {
                Ok(replies) => Ok(JsonRpcForwardedResponseEnum::Batch(replies)),
                Err(e) => Err(e),
            }
        } else {
            let ghost all = results@;
            let mut results = results;
            match results.remove(0) {
                Ok(reply) => Ok(JsonRpcForwardedResponseEnum::Single(reply)),
                Err(e) => {
                    assert(first_failure(all, 0, e));
                    Err(e)
                },
            }
        }
    }
}

/// Every result is a reply, and `replies` are they.
pub open spec fn all_replies<E>(
    results: Seq<Result<JsonRpcForwardedResponse, E>>,
    replies: Seq<JsonRpcForwardedResponse>,
) -> bool {
    &&& replies.len() == results.len()
    &&& forall|i: int|
        0 <= i < results.len() ==> #[trigger] results[i] == Ok::<JsonRpcForwardedResponse, E>(
            replies[i],
        )
}

/// The result at `i` is the error `e`, and no result before it is an error.
pub open spec fn first_failure<E>(
    results: Seq<Result<JsonRpcForwardedResponse, E>>,
    i: int,
    e: E,
) -> bool {
    &&& 0 <= i < results.len()
    &&& results[i] == Err::<JsonRpcForwardedResponse, E>(e)
    &&& forall|j: int| 0 <= j < i ==> #[trigger] results[j] is Ok
}

/// The first result that is an error is the error `e`.
pub open spec fn fails_with<E>(
    results: Seq<Result<JsonRpcForwardedResponse, E>>,
    e: E,
) -> bool {
    exists|i: int| #[trigger] first_failure(results, i, e)
}

/// A batch either has the reply to each of its requests, in their order, or the error of the first
/// request that failed, and never both.
pub proof fn law_batch_has_all_replies_or_the_first_error<E>(
    results: Seq<Result<JsonRpcForwardedResponse, E>>,
    replies: Seq<JsonRpcForwardedResponse>,
    e: E,
)
    ensures
        all_replies(results, replies) <==> {
            &&& replies.len() == results.len()
            &&& forall|i: int|
                0 <= i < results.len() ==> (#[trigger] results[i]) is Ok && results[i]->Ok_0
                    == replies[i]
        },
        fails_with(results, e) <==> exists|i: int|
            {
                &&& 0 <= i < results.len()
                &&& (#[trigger] results[i]) is Err
                &&& results[i]->Err_0 == e
                &&& forall|j: int| 0 <= j < i ==> (#[trigger] results[j]) is Ok
            },
        !(all_replies(results, replies) && fails_with(results, e)),
{
    if all_replies(results, replies) {
        assert forall|i: int| 0 <= i < results.len() implies (#[trigger] results[i]) is Ok
            && results[i]->Ok_0 == replies[i] by {}
    }
    if fails_with(results, e) {
        let i = choose|i: int| #[trigger] first_failure(results, i, e);
        assert(results[i] is Err && results[i]->Err_0 == e);
    }
    if exists|i: int|
        {
            &&& 0 <= i < results.len()
            &&& (#[trigger] results[i]) is Err
            &&& results[i]->Err_0 == e
            &&& forall|j: int| 0 <= j < i ==> (#[trigger] results[j]) is Ok
        } {
        let i = choose|i: int|
            {
                &&& 0 <= i < results.len()
                &&& (#[trigger] results[i]) is Err
                &&& results[i]->Err_0 == e
                &&& forall|j: int| 0 <= j < i ==> (#[trigger] results[j]) is Ok
            };
        assert(first_failure(results, i, e));
    }
}

impl Web3ProxyApp {
    /// The servers for requests in general.
    pub closed spec fn balanced(self) -> Web3Connections {
        *self.balanced_rpcs
    }

    /// The servers for private requests.
    pub closed spec fn private(self) -> Web3Connections {
        *self.private_rpcs
    }

    /// What the application remembers of requests.
    pub closed spec fn state(self) -> ProxyState {
        ProxyState { replies: self.response_cache@, in_flight: tickets(self.incoming_requests) }
    }

    /// The cache is in order.
    pub open spec fn wf(self) -> bool {
        is_cache(self.state().replies)
    }

    /// The servers are the same as those of `other`.
    pub open spec fn same_servers(self, other: Self) -> bool {
        self.balanced() == other.balanced() && self.private() == other.private()
    }

    /// An application with the given servers, no request in flight and an empty cache. Without
    /// servers of their own, private requests go to the servers for requests in general.
    pub fn try_new(
        balanced_rpcs: Arc<Web3Connections>,
        private_rpcs: Option<Arc<Web3Connections>>,
    ) -> (app: Self)
        ensures
            app.balanced() == *balanced_rpcs,
            app.private() == match private_rpcs {
                Some(own) => *own,
                None => *balanced_rpcs,
            },
            app.wf(),
            app.state().in_flight.dom() == Set::<KeyParts>::empty(),
            app.state().replies.len() == 0,
    {
        let private_rpcs = match private_rpcs {
            Some(own) => own,
            None => balanced_rpcs.clone(),
        };
        Web3ProxyApp {
            balanced_rpcs,
            private_rpcs,
            incoming_requests: no_requests(),
            response_cache: ResponseCache::new(),
        }
    }

    /// The servers for requests in general.
    pub fn get_balanced_rpcs(&self) -> (r: &Web3Connections)
        ensures
            *r == self.balanced(),
    {
        &self.balanced_rpcs
    }

    /// The servers for private requests.
    pub fn get_private_rpcs(&self) -> (r: &Web3Connections)
        ensures
            *r == self.private(),
    {
        &self.private_rpcs
    }

    /// The requests in flight. They must only be read.
    pub fn get_active_requests(&self) -> (r: &ActiveRequestsMap)
        ensures
            tickets(*r) == self.state().in_flight,
    {
        &self.incoming_requests
    }

    /// The requests that a client sent, one or several, and how long they may take.
    pub fn proxy_web3_rpc(&self, request: JsonRpcRequestEnum) -> (plan: ProxyPlan)
        ensures
            plan.max_seconds == 60,
            match request {
                JsonRpcRequestEnum::Single(one) => !plan.is_batch && plan.requests@ == seq![one],
                JsonRpcRequestEnum::Batch(several) => plan.is_batch && plan.requests == several,
            },
    {
        match request {
            JsonRpcRequestEnum::Single(one) => {
                let mut requests: Vec<JsonRpcRequest> = Vec::new();
                requests.push(one);
                ProxyPlan { max_seconds: MAX_SECONDS, is_batch: false, requests }
            },
            JsonRpcRequestEnum::Batch(several) => ProxyPlan {
                max_seconds: MAX_SECONDS,
                is_batch: true,
                requests: several,
            },
        }
    }

    /// The replies to the requests of a batch, in order. If a request failed, the whole batch
    /// fails, with the error of the first that did.
    pub fn proxy_web3_rpc_requests<E>(results: Vec<Result<JsonRpcForwardedResponse, E>>) -> (r:
        Result<Vec<JsonRpcForwardedResponse>, E>)
        ensures
            r matches Ok(replies) ==> all_replies(results@, replies@),
            r matches Err(e) ==> fails_with(results@, e),
    {
        let ghost all = results@;
        let mut collected: Vec<JsonRpcForwardedResponse> = Vec::with_capacity(results.len());
        for result in it: results
            invariant
                all == results@,
                it.seq() == all,
                collected@.len() == it.index(),
                forall|j: int|
                    0 <= j < it.index() ==> #[trigger] all[j] == Ok::<JsonRpcForwardedResponse, E>(
                        collected@[j],
                    ),
        {
            match result {
                Ok(reply) => {
                    collected.push(reply);
                },
                Err(e) => {
                    assert(first_failure(all, it.index(), e));
                    return Err(e);
                },
            }
        }
        Ok(collected)
    }

    /// The key of a request, and the reply that is cached under it. There is neither if the
    /// parameters are not JSON.
    pub fn get_cached_response(&self, head_block_hash: [u8; 32], request: &JsonRpcRequest) -> (r:
        Option<(CacheKey, Option<JsonRpcForwardedResponse>)>)
        requires
            self.wf(),
        ensures
            r is None <==> request.params is Some && params_text(request.params) is None,
            r matches Some((key, reply)) ==> {
                &&& key_parts(key) == key_of(head_block_hash, *request)
                &&& key.1@ == request.method@
                &&& key.2 is Some <==> request.params is Some
                &&& key.2 is Some ==> json_text(request.params->Some_0@) == Some(
                    key.2->Some_0@,
                )
                &&& reply == cached(self.state().replies, key_parts(key))
            },
    {
        let params = match &request.params {
            Some(raw) => match value_text(raw) {
                Some(text) => Some(text),
                None => {
                    return None;
                },
            },
            None => None,
        };
        let key = new_key(head_block_hash, &request.method, params);
        let reply = self.response_cache.get(&key);
        Some((key, reply))
    }

    /// Begins a round for a request, given the reply that is cached under its key.
    fn begin_round(&mut self, run: &mut ProxyRun, hit: Option<JsonRpcForwardedResponse>) -> (step:
        ProxyStep)
        requires
            old(self).wf(),
            hit == cached(old(self).state().replies, old(run)@.key),
        ensures
            final(self).wf(),
            final(self).same_servers(*old(self)),
            final(run)@ == after_round(old(run)@),
            begins(old(self).state(), old(run)@, final(self).state(), step),
    {
        if run.rounds >= MAX_ROUNDS {
            return ProxyStep::Finish(Err(ProxyError::Internal));
        }
        run.rounds = run.rounds + 1;
        if run.is_private {
            return ProxyStep::SendPrivate;
        }
        if let Some(reply) = hit {
            leave(&mut self.incoming_requests, &run.key);
            return ProxyStep::Finish(Ok(reply));
        }
        // check if this request is already in flight
        match ticket_of(&self.incoming_requests, &run.key) {
            Some(other) => ProxyStep::Wait(other),
            None => {
                enter(&mut self.incoming_requests, copy_key(&run.key), run.ticket);
                ProxyStep::FindServer
            },
        }
    }

    /// Takes in a request, given the head block and a ticket for it. It is refused if its
    /// parameters are not JSON.
    pub fn proxy_web3_rpc_request(
        &mut self,
        request: JsonRpcRequest,
        head_block_hash: [u8; 32],
        ticket: u64,
    ) -> (r: Option<(ProxyRun, ProxyStep)>)
        requires
            old(self).wf(),
        ensures
            final(self).wf(),
            final(self).same_servers(*old(self)),
            r is None <==> request.params is Some && params_text(request.params) is None,
            r is None ==> final(self).state() == old(self).state(),
            r matches Some((run, step)) ==> {
                &&& run@ == after_round(new_course(request, head_block_hash, ticket))
                &&& begins(
                    old(self).state(),
                    new_course(request, head_block_hash, ticket),
                    final(self).state(),
                    step,
                )
            },
    {
        match self.get_cached_response(head_block_hash, &request) {
            None => None,
            Some((key, hit)) => {
                let is_private: bool = same_text(
                    request.method.as_str(),
                    "eth_sendRawTransaction",
                );
                let mut run = ProxyRun {
                    id: request.id,
                    method: request.method,
                    params: copy_text(&key.2),
                    is_private,
                    rounds: 0,
                    key,
                    ticket,
                };
                let step = self.begin_round(&mut run, hit);
                Some((run, step))
            },
        }
    }

    /// Goes on with a request after `event`. A result is stored in the cache and answered. If all
    /// servers are rate limited the request is delayed and then tried again, a limited number of
    /// times.
    pub fn continue_request(&mut self, run: &mut ProxyRun, event: ProxyEvent) -> (r: Reaction)
        requires
            old(self).wf(),
        ensures
            final(self).wf(),
            final(self).same_servers(*old(self)),
            final(run)@ == next_course(old(run)@, event),
            is_next(old(self).state(), old(run)@, event, final(self).state(), r),
    {
        match event {
            ProxyEvent::Waited => match self.response_cache.get(&run.key) {
                Some(reply) => {
                    leave(&mut self.incoming_requests, &run.key);
                    Reaction { wake: true, step: ProxyStep::Finish(Ok(reply)) }
                },
                None => Reaction { wake: false, step: ProxyStep::FindServer },
            },
            ProxyEvent::FoundServer => Reaction { wake: false, step: ProxyStep::Send },
            ProxyEvent::NoServer(None) => {
                leave(&mut self.incoming_requests, &run.key);
                Reaction {
                    wake: true,
                    step: ProxyStep::Finish(Err(ProxyError::NoServersInSync)),
                }
            },
            ProxyEvent::NoServer(Some(time)) => {
                Reaction { wake: false, step: ProxyStep::Delay(time) }
            },
            ProxyEvent::Answered(Ok(result)) => {
                let reply = JsonRpcForwardedResponse::success(run.id.clone(), result);
                self.response_cache.store(copy_key(&run.key), reply.duplicate());
                leave(&mut self.incoming_requests, &run.key);
                Reaction { wake: true, step: ProxyStep::Finish(Ok(reply)) }
            },
            ProxyEvent::Answered(Err(reply)) => {
                // an error is not cached
                leave(&mut self.incoming_requests, &run.key);
                Reaction { wake: true, step: ProxyStep::Finish(Ok(reply)) }
            },
            ProxyEvent::Delayed { head_block_hash, ticket } => {
                leave(&mut self.incoming_requests, &run.key);
                run.key = new_key(head_block_hash, &run.method, copy_text(&run.params));
                run.ticket = ticket;
                let hit = self.response_cache.get(&run.key);
                let step = self.begin_round(run, hit);
                Reaction { wake: true, step }
            },
        }
    }
}

} // verus!
