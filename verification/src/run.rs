//! The course of a single request through the proxy.

use vstd::prelude::*;

use crate::cache::{
    cached, is_cache, key_at, key_of, key_parts, law_only_what_stands_under_the_key_is_read,
    law_read_gives_what_was_stored, law_same_key_means_same_request,
    law_storing_keeps_other_replies, law_storing_keeps_the_cache_in_order, params_text, stored,
    text_parts, without_key, CacheKey, KeyParts,
};
use crate::error::ProxyError;
use crate::json::json_text;
use crate::jsonrpc::{is_success, JsonRpcForwardedResponse, JsonRpcRequest};

verus! {

/// How often a request is tried before it fails.
pub const MAX_ROUNDS: u32 = 10;

/// What has happened to a request outside of the proxy.
#[derive(Debug, PartialEq, Eq)]
pub enum ProxyEvent {
    /// The same request, which was waited for, has ended.
    Waited,
    /// A server takes the request.
    FoundServer,
    /// No server takes the request. All are rate limited for the given time, or none is in sync
    /// if there is no time.
    NoServer(Option<u64>),
    /// The server has answered, with a result as JSON text, or with an error that was made into
    /// a reply.
    Answered(Result<String, JsonRpcForwardedResponse>),
    /// The request has been delayed. This is the head block now, and a new ticket.
    Delayed { head_block_hash: [u8; 32], ticket: u64 },
}

/// What is to happen to a request outside of the proxy.
#[derive(Debug, PartialEq, Eq)]
pub enum ProxyStep {
    /// Send it to all servers for private requests. What they reply is the answer.
    SendPrivate,
    /// Wait for the same request, which has this ticket, to end.
    Wait(u64),
    /// Look for a server.
    FindServer,
    /// Send the request to the server.
    Send,
    /// Delay it for the given time.
    Delay(u64),
    /// Answer it.
    Finish(Result<JsonRpcForwardedResponse, ProxyError>),
}

/// What follows an event.
#[derive(Debug, PartialEq, Eq)]
pub struct Reaction {
    /// Those that wait for the request by the ticket that it had are to be woken.
    pub wake: bool,
    /// What is to happen next.
    pub step: ProxyStep,
}

/// A request on its way through the proxy.
#[derive(Debug)]
pub struct ProxyRun {
    /// The client's id, as JSON text.
    pub id: String,
    pub method: String,
    /// The parameters as they stand in the key.
    pub params: Option<String>,
    /// The request only goes to the servers for private requests.
    pub is_private: bool,
    /// How many rounds of trying have begun.
    pub rounds: u32,
    /// What the reply is cached under.
    pub key: CacheKey,
    /// By this those that wait for the request find it.
    pub ticket: u64,
}

/// How far a request has come.
pub struct Course {
    pub id: Seq<char>,
    pub method: Seq<char>,
    pub params: Option<Seq<char>>,
    pub is_private: bool,
    pub rounds: nat,
    pub key: KeyParts,
    pub ticket: u64,
}

impl View for ProxyRun {
    type V = Course;

    open spec fn view(&self) -> Course {
        Course {
            id: self.id@,
            method: self.method@,
            params: text_parts(self.params),
            is_private: self.is_private,
            rounds: self.rounds as nat,
            key: key_parts(self.key),
            ticket: self.ticket,
        }
    }
}

/// What the proxy remembers of requests: the replies in the cache, the oldest first, and the
/// tickets of the requests in flight.
pub struct ProxyState {
    pub replies: Seq<(KeyParts, JsonRpcForwardedResponse)>,
    pub in_flight: Map<KeyParts, u64>,
}

impl ProxyState {
    /// A request has been entered among those in flight.
    pub open spec fn entered(self, key: KeyParts, ticket: u64) -> ProxyState {
        ProxyState { replies: self.replies, in_flight: self.in_flight.insert(key, ticket) }
    }

    /// A request has left those in flight.
    pub open spec fn left(self, key: KeyParts) -> ProxyState {
        ProxyState { replies: self.replies, in_flight: self.in_flight.remove(key) }
    }

    /// A reply has been stored in the cache.
    pub open spec fn stored(self, key: KeyParts, reply: JsonRpcForwardedResponse) -> ProxyState {
        ProxyState { replies: stored(self.replies, key, reply), in_flight: self.in_flight }
    }
}

/// The method of requests that only go to the servers for private requests.
pub open spec fn private_method() -> Seq<char> {
    "eth_sendRawTransaction"@
}

/// The course of a request that has just come in.
pub open spec fn new_course(
    request: JsonRpcRequest,
    head_block_hash: [u8; 32],
    ticket: u64,
) -> Course {
    Course {
        id: request.id@,
        method: request.method@,
        params: params_text(request.params),
        is_private: request.method@ == private_method(),
        rounds: 0,
        key: key_of(head_block_hash, request),
        ticket,
    }
}

/// The course after a round has begun, unless there have been enough.
pub open spec fn after_round(c: Course) -> Course {
    Course {
        rounds: if c.rounds < MAX_ROUNDS {
            c.rounds + 1
        } else {
            c.rounds
        },
        ..c
    }
}

/// The course of a request that has been delayed, before the next round.
pub open spec fn delayed(c: Course, head_block_hash: [u8; 32], ticket: u64) -> Course {
    Course { key: (Some(head_block_hash@), c.method, c.params), ticket, ..c }
}

/// The course after `event`.
pub open spec fn next_course(c: Course, event: ProxyEvent) -> Course {
    match event {
        ProxyEvent::Delayed { head_block_hash, ticket } => after_round(
            delayed(c, head_block_hash, ticket),
        ),
        _ => c,
    }
}

/// A round begins in the state `s`, with `step` next and the state `s2` after it. A private
/// request goes to all servers for private requests. Any other is answered from the cache if it
/// can be, else waits for the same request if that is in flight, and else is entered among those
/// in flight and goes to a server.
pub open spec fn begins(s: ProxyState, c: Course, s2: ProxyState, step: ProxyStep) -> bool {
    if c.rounds >= MAX_ROUNDS {
        s2 == s && step == ProxyStep::Finish(Err(ProxyError::Internal))
    } else if c.is_private {
        s2 == s && step == ProxyStep::SendPrivate
    } else {
        match cached(s.replies, c.key) {
            Some(reply) => s2 == s.left(c.key) && step == ProxyStep::Finish(Ok(reply)),
            None => if s.in_flight.contains_key(c.key) {
                s2 == s && step == ProxyStep::Wait(s.in_flight[c.key])
            } else {
                s2 == s.entered(c.key, c.ticket) && step == ProxyStep::FindServer
            },
        }
    }
}

/// In the state `s`, `event` happens to a request with the course `c`, which leads to the state
/// `s2` and to `r`.
pub open spec fn is_next(
    s: ProxyState,
    c: Course,
    event: ProxyEvent,
    s2: ProxyState,
    r: Reaction,
) -> bool {
    match event {
        ProxyEvent::Waited => match cached(s.replies, c.key) {
            Some(reply) => {
                &&& s2 == s.left(c.key)
                &&& r == (Reaction { wake: true, step: ProxyStep::Finish(Ok(reply)) })
            },
            None => s2 == s && r == (Reaction { wake: false, step: ProxyStep::FindServer }),
        },
        ProxyEvent::FoundServer => {
            s2 == s && r == (Reaction { wake: false, step: ProxyStep::Send })
        },
        ProxyEvent::NoServer(None) => {
            &&& s2 == s.left(c.key)
            &&& r == (Reaction {
                wake: true,
                step: ProxyStep::Finish(Err(ProxyError::NoServersInSync)),
            })
        },
        ProxyEvent::NoServer(Some(time)) => {
            s2 == s && r == (Reaction { wake: false, step: ProxyStep::Delay(time) })
        },
        ProxyEvent::Answered(Ok(result)) => {
            &&& r.wake
            &&& r.step matches ProxyStep::Finish(Ok(reply))
            &&& is_success(reply, c.id, result@)
            &&& s2 == s.stored(c.key, reply).left(c.key)
        },
        ProxyEvent::Answered(Err(reply)) => {
            &&& s2 == s.left(c.key)
            &&& r == (Reaction { wake: true, step: ProxyStep::Finish(Ok(reply)) })
        },
        ProxyEvent::Delayed { head_block_hash, ticket } => {
            &&& r.wake
            &&& begins(s.left(c.key), delayed(c, head_block_hash, ticket), s2, r.step)
        },
    }
}

/// A request that ends is not in flight any more, and those that wait for it are woken.
pub proof fn law_ended_request_is_not_in_flight(
    s: ProxyState,
    c: Course,
    event: ProxyEvent,
    s2: ProxyState,
    r: Reaction,
)
    requires
        is_next(s, c, event, s2, r),
        r.step is Finish,
    ensures
        r.wake,
        !s2.in_flight.contains_key(c.key),
{
}

/// A request that is answered from the cache at once is not in flight.
pub proof fn law_request_answered_at_once_is_not_in_flight(
    s: ProxyState,
    c: Course,
    s2: ProxyState,
    step: ProxyStep,
)
    requires
        c.rounds < MAX_ROUNDS,
        begins(s, c, s2, step),
        step is Finish,
    ensures
        !s2.in_flight.contains_key(c.key),
{
}

/// What happens to a request leaves the requests in flight with other keys alone.
pub proof fn law_other_requests_stay_in_flight(
    s: ProxyState,
    c: Course,
    event: ProxyEvent,
    s2: ProxyState,
    r: Reaction,
    other: KeyParts,
)
    requires
        is_next(s, c, event, s2, r),
        other != c.key,
        other != next_course(c, event).key,
    ensures
        s2.in_flight.contains_key(other) == s.in_flight.contains_key(other),
        s2.in_flight.contains_key(other) ==> s2.in_flight[other] == s.in_flight[other],
{
}

/// The cache only changes when a server has answered with a result. Then the reply that the
/// client gets is stored; it has no error.
pub proof fn law_only_successes_are_stored(
    s: ProxyState,
    c: Course,
    event: ProxyEvent,
    s2: ProxyState,
    r: Reaction,
)
    requires
        is_next(s, c, event, s2, r),
    ensures
        !(event matches ProxyEvent::Answered(Ok(_))) ==> s2.replies == s.replies,
        event matches ProxyEvent::Answered(Ok(result)) ==> {
            &&& r.step matches ProxyStep::Finish(Ok(reply))
            &&& reply.error is None
            &&& s2.replies == stored(s.replies, c.key, reply)
        },
{
}

/// Every reply in the cache carries a result, and no error.
pub open spec fn holds_successes(replies: Seq<(KeyParts, JsonRpcForwardedResponse)>) -> bool {
    forall|i: int|
        0 <= i < replies.len() ==> {
            &&& (#[trigger] replies[i]).1.jsonrpc@ == "2.0"@
            &&& replies[i].1.error is None
            &&& replies[i].1.result is Some
        }
}

/// A round that begins leaves the cache alone.
pub proof fn law_beginning_leaves_the_cache_alone(
    s: ProxyState,
    c: Course,
    s2: ProxyState,
    step: ProxyStep,
)
    requires
        begins(s, c, s2, step),
    ensures
        s2.replies == s.replies,
{
}

/// Whatever happens to a request, every reply in the cache still carries a result if every one did.
pub proof fn law_cached_replies_stay_successes(
    s: ProxyState,
    c: Course,
    event: ProxyEvent,
    s2: ProxyState,
    r: Reaction,
)
    requires
        is_next(s, c, event, s2, r),
        holds_successes(s.replies),
    ensures
        holds_successes(s2.replies),
{
    if let ProxyEvent::Answered(Ok(_)) = event {
        if let ProxyStep::Finish(Ok(reply)) = r.step {
            let rest = without_key(s.replies, c.key);
            if exists|i: int| key_at(s.replies, c.key, i) {
                let p = choose|i: int| key_at(s.replies, c.key, i);
                assert forall|i: int| 0 <= i < rest.len() implies #[trigger] rest[i]
                    == s.replies[if i < p {
                    i
                } else {
                    i + 1
                }] by {}
            }
            assert(holds_successes(rest));
            assert(holds_successes(rest.push((c.key, reply))));
        }
    }
}

/// The beginning of a round of some request leads from the state `s` to the state `s2`.
pub open spec fn round_leads_to(s: ProxyState, s2: ProxyState) -> bool {
    exists|c: Course, step: ProxyStep| begins(s, c, s2, step)
}

/// Some event that happens to some request leads from the state `s` to the state `s2`.
pub open spec fn event_leads_to(s: ProxyState, s2: ProxyState) -> bool {
    exists|c: Course, event: ProxyEvent, r: Reaction| is_next(s, c, event, s2, r)
}

/// The states that the proxy goes through, from an empty cache, while rounds of requests begin
/// and events happen to them in any order.
pub open spec fn is_history(states: Seq<ProxyState>) -> bool {
    &&& states.len() > 0
    &&& states[0].replies.len() == 0
    &&& forall|i: int|
        0 < i < states.len() ==> {
            ||| round_leads_to(states[i - 1], #[trigger] states[i])
            ||| event_leads_to(states[i - 1], states[i])
        }
}

/// At all times every reply in the cache carries a result, no key stands there twice, and there
/// are fewer replies than the limit.
pub proof fn law_every_cached_reply_is_a_success(states: Seq<ProxyState>, i: int)
    requires
        is_history(states),
        0 <= i < states.len(),
    ensures
        holds_successes(states[i].replies),
        is_cache(states[i].replies),
    decreases i,
{
    if i > 0 {
        let s = states[i - 1];
        let s2 = states[i];
        law_every_cached_reply_is_a_success(states, i - 1);
        if round_leads_to(s, s2) {
            let (c, step) = choose|c: Course, step: ProxyStep| begins(s, c, s2, step);
            law_beginning_leaves_the_cache_alone(s, c, s2, step);
        } else {
            assert(event_leads_to(s, s2));
            let (c, event, r) = choose|c: Course, event: ProxyEvent, r: Reaction|
                is_next(s, c, event, s2, r);
            law_cached_replies_stay_successes(s, c, event, s2, r);
            law_only_successes_are_stored(s, c, event, s2, r);
            if let ProxyStep::Finish(Ok(reply)) = r.step {
                law_storing_keeps_the_cache_in_order(s.replies, c.key, reply);
            }
        }
    }
}

/// While a request is in flight, the same request is not sent to a server but waits for it.
pub proof fn law_same_request_waits(
    s: ProxyState,
    c: Course,
    s2: ProxyState,
    other: Course,
    s3: ProxyState,
    step: ProxyStep,
)
    requires
        begins(s, c, s2, ProxyStep::FindServer),
        other.key == c.key,
        !other.is_private,
        other.rounds < MAX_ROUNDS,
        begins(s2, other, s3, step),
    ensures
        step == ProxyStep::Wait(c.ticket),
        s3 == s2,
{
}

/// Once a server has answered a request with a result, the same request under the same head
/// block is answered with the same reply, without a server.
pub proof fn law_second_request_is_answered_from_cache(
    s: ProxyState,
    c: Course,
    result: String,
    s2: ProxyState,
    r: Reaction,
    other: Course,
    s3: ProxyState,
    step: ProxyStep,
)
    requires
        is_cache(s.replies),
        is_next(s, c, ProxyEvent::Answered(Ok(result)), s2, r),
        other.key == c.key,
        !other.is_private,
        other.rounds < MAX_ROUNDS,
        begins(s2, other, s3, step),
    ensures
        step == r.step,
        step matches ProxyStep::Finish(Ok(reply)) && is_success(reply, c.id, result@),
{
    if let ProxyStep::Finish(Ok(reply)) = r.step {
        law_read_gives_what_was_stored(s.replies, c.key, reply);
    }
}

/// A request that has waited for the same request is answered with the reply that this one got,
/// if a server answered it with a result.
pub proof fn law_waiting_request_gets_the_same_reply(
    s: ProxyState,
    c: Course,
    result: String,
    s2: ProxyState,
    r: Reaction,
    other: Course,
    s3: ProxyState,
    r3: Reaction,
)
    requires
        is_cache(s.replies),
        is_next(s, c, ProxyEvent::Answered(Ok(result)), s2, r),
        other.key == c.key,
        is_next(s2, other, ProxyEvent::Waited, s3, r3),
    ensures
        r3.step == r.step,
{
    if let ProxyStep::Finish(Ok(reply)) = r.step {
        law_read_gives_what_was_stored(s.replies, c.key, reply);
    }
}

/// Private requests go to the servers for private requests, and no other request does.
pub proof fn law_only_private_requests_go_to_private_servers(
    s: ProxyState,
    c: Course,
    s2: ProxyState,
    step: ProxyStep,
)
    requires
        c.rounds < MAX_ROUNDS,
        begins(s, c, s2, step),
    ensures
        step == ProxyStep::SendPrivate <==> c.is_private,
        c.is_private ==> s2 == s,
{
}

/// The course after all of `events`.
pub open spec fn course_after(c: Course, events: Seq<ProxyEvent>) -> Course
    decreases events.len(),
{
    if events.len() == 0 {
        c
    } else {
        next_course(course_after(c, events.drop_last()), events.last())
    }
}

/// How often a request was delayed.
pub open spec fn delays(events: Seq<ProxyEvent>) -> nat {
    events.filter(|e: ProxyEvent| e is Delayed).len()
}

/// Whatever happens, a request is tried a limited number of times: once it has been delayed that
/// often, and not before, it fails for that reason.
pub proof fn law_request_is_tried_a_limited_number_of_times(
    c: Course,
    events: Seq<ProxyEvent>,
    s: ProxyState,
    event: ProxyEvent,
    s2: ProxyState,
    r: Reaction,
)
    requires
        c.rounds == 1,
        is_next(s, course_after(c, events), event, s2, r),
    ensures
        course_after(c, events).rounds <= MAX_ROUNDS,
        MAX_ROUNDS == 10,
        r.step == ProxyStep::Finish(Err(ProxyError::Internal)) <==> event is Delayed && events.filter(
            |e: ProxyEvent| e is Delayed,
        ).len() >= 9,
{
    lemma_rounds_after(c, events);
}

proof fn lemma_rounds_after(c: Course, events: Seq<ProxyEvent>)
    requires
        c.rounds == 1,
    ensures
        course_after(c, events).rounds == if delays(events) < MAX_ROUNDS - 1 {
            delays(events) + 1
        } else {
            MAX_ROUNDS as nat
        },
    decreases events.len(),
{
    let is_delay = |e: ProxyEvent| e is Delayed;
    if events.len() == 0 {
        events.lemma_filter_len(is_delay);
    } else {
        lemma_rounds_after(c, events.drop_last());
        assert(events =~= events.drop_last().push(events.last()));
        events.drop_last().lemma_filter_len_push(is_delay, events.last());
    }
}

/// Whether a request is private is told by its method alone.
pub proof fn law_signed_transactions_are_private(
    s: ProxyState,
    request: JsonRpcRequest,
    head_block_hash: [u8; 32],
    ticket: u64,
    s2: ProxyState,
    step: ProxyStep,
)
    requires
        begins(s, new_course(request, head_block_hash, ticket), s2, step),
    ensures
        step == ProxyStep::SendPrivate <==> request.method@ == "eth_sendRawTransaction"@,
{
}

/// A request that comes in is answered at once only with a reply that stands in the cache under
/// its head block, its method and its parameters as a whole.
pub proof fn law_request_is_answered_only_from_its_own_key(
    s: ProxyState,
    request: JsonRpcRequest,
    head_block_hash: [u8; 32],
    ticket: u64,
    s2: ProxyState,
    step: ProxyStep,
)
    requires
        begins(s, new_course(request, head_block_hash, ticket), s2, step),
        step is Finish,
    ensures
        step matches ProxyStep::Finish(Ok(reply)) && s.replies.contains(
            (
                (
                    Some(head_block_hash@),
                    request.method@,
                    if request.params is Some {
                        json_text(request.params->Some_0@)
                    } else {
                        None
                    },
                ),
                reply,
            ),
        ),
{
    law_only_what_stands_under_the_key_is_read(
        s.replies,
        new_course(request, head_block_hash, ticket).key,
    );
}

/// After a server has answered the request `a` with a result, another request whose reply was not
/// cached before is answered from the cache if and only if it comes in under the same head block,
/// with the same method and the same parameters as a whole.
pub proof fn law_reply_is_only_given_to_the_same_request(
    s: ProxyState,
    a: JsonRpcRequest,
    head_a: [u8; 32],
    ticket_a: u64,
    result: String,
    s2: ProxyState,
    r: Reaction,
    b: JsonRpcRequest,
    head_b: [u8; 32],
    ticket_b: u64,
    s3: ProxyState,
    step: ProxyStep,
)
    requires
        is_cache(s.replies),
        a.params is Some ==> json_text(a.params->Some_0@) is Some,
        b.params is Some ==> json_text(b.params->Some_0@) is Some,
        b.method@ != "eth_sendRawTransaction"@,
        is_next(
            s,
            after_round(new_course(a, head_a, ticket_a)),
            ProxyEvent::Answered(Ok(result)),
            s2,
            r,
        ),
        begins(s2, new_course(b, head_b, ticket_b), s3, step),
        cached(s.replies, key_of(head_b, b)) is None,
    ensures
        step is Finish <==> {
            &&& head_a@ == head_b@
            &&& a.method@ == b.method@
            &&& a.params is Some <==> b.params is Some
            &&& a.params is Some && b.params is Some ==> json_text(a.params->Some_0@)
                == json_text(b.params->Some_0@)
        },
        step is Finish ==> {
            &&& step == r.step
            &&& step->Finish_0 is Ok
            &&& step->Finish_0->Ok_0.result is Some
            &&& step->Finish_0->Ok_0.result->Some_0@ == result@
        },
{
    let ka = key_of(head_a, a);
    let kb = key_of(head_b, b);
    law_same_key_means_same_request(head_a, a, head_b, b);
    if let ProxyStep::Finish(Ok(reply)) = r.step {
        law_read_gives_what_was_stored(s.replies, ka, reply);
        if ka != kb {
            law_only_what_stands_under_the_key_is_read(s.replies, kb);
            if s.replies.len() > 0 {
                assert(s.replies[0].0 != kb);
            }
            law_storing_keeps_other_replies(s.replies, ka, reply, kb);
        }
    }
}

/// A request that is not private and whose reply stands in the cache is answered with it, when it
/// comes in and when it has waited, whether the same request is in flight or not. After that it
/// is not in flight.
pub proof fn law_cached_request_is_answered(
    s: ProxyState,
    c: Course,
    reply: JsonRpcForwardedResponse,
    s2: ProxyState,
    step: ProxyStep,
    r: Reaction,
)
    requires
        is_cache(s.replies),
        s.replies.contains((c.key, reply)),
    ensures
        begins(s, c, s2, step) && c.rounds < 10 && !c.is_private ==> {
            &&& step == ProxyStep::Finish(Ok(reply))
            &&& s2.replies == s.replies
            &&& s2.in_flight == s.in_flight.remove(c.key)
        },
        is_next(s, c, ProxyEvent::Waited, s2, r) ==> {
            &&& r.step == ProxyStep::Finish(Ok(reply))
            &&& r.wake
            &&& s2.replies == s.replies
            &&& s2.in_flight == s.in_flight.remove(c.key)
        },
{
    let i = choose|i: int| 0 <= i < s.replies.len() && s.replies[i] == (c.key, reply);
    assert(key_at(s.replies, c.key, i));
    let j = choose|j: int| key_at(s.replies, c.key, j);
    if i != j {
        assert(s.replies[i].0 != s.replies[j].0);
    }
}

/// After ten rounds nothing more is done for a request but to fail.
pub proof fn law_nothing_is_done_after_ten_rounds(
    s: ProxyState,
    c: Course,
    s2: ProxyState,
    step: ProxyStep,
)
    requires
        begins(s, c, s2, step),
    ensures
        step == ProxyStep::Finish(Err(ProxyError::Internal)) <==> c.rounds >= 10,
        c.rounds >= 10 ==> s2 == s,
{
}

/// A delayed request leaves those in flight, and then begins a round as a request that comes in.
pub proof fn law_delayed_request_begins_anew(
    s: ProxyState,
    c: Course,
    head_block_hash: [u8; 32],
    ticket: u64,
    s2: ProxyState,
    r: Reaction,
)
    requires
        is_next(s, c, ProxyEvent::Delayed { head_block_hash, ticket }, s2, r),
    ensures
        begins(
            ProxyState { replies: s.replies, in_flight: s.in_flight.remove(c.key) },
            Course {
                id: c.id,
                method: c.method,
                params: c.params,
                is_private: c.is_private,
                rounds: c.rounds,
                key: (Some(head_block_hash@), c.method, c.params),
                ticket,
            },
            s2,
            r.step,
        ),
{
}

/// A request that is neither private nor cached waits if the same request is in flight, and else
/// is entered there with its own ticket and goes to a server. Nothing else changes.
pub proof fn law_request_that_is_not_cached_waits_or_goes_to_a_server(
    s: ProxyState,
    c: Course,
    s2: ProxyState,
    step: ProxyStep,
)
    requires
        begins(s, c, s2, step),
        c.rounds < 10,
        !c.is_private,
        forall|i: int| 0 <= i < s.replies.len() ==> (#[trigger] s.replies[i]).0 != c.key,
    ensures
        s2.replies == s.replies,
        s.in_flight.contains_key(c.key) ==> {
            &&& step == ProxyStep::Wait(s.in_flight[c.key])
            &&& s2.in_flight == s.in_flight
        },
        !s.in_flight.contains_key(c.key) ==> {
            &&& step == ProxyStep::FindServer
            &&& s2.in_flight == s.in_flight.insert(c.key, c.ticket)
        },
{
    law_only_what_stands_under_the_key_is_read(s.replies, c.key);
}

/// What a server answers reaches the client: a result as it is, under the id of the request, and
/// an error reply unchanged. The request is no longer in flight, and those that wait are woken.
pub proof fn law_answer_reaches_the_client(
    s: ProxyState,
    c: Course,
    answer: Result<String, JsonRpcForwardedResponse>,
    s2: ProxyState,
    r: Reaction,
)
    requires
        is_next(s, c, ProxyEvent::Answered(answer), s2, r),
    ensures
        r.wake,
        r.step is Finish,
        r.step->Finish_0 is Ok,
        answer matches Ok(result) ==> {
            &&& r.step->Finish_0->Ok_0.jsonrpc@ == "2.0"@
            &&& r.step->Finish_0->Ok_0.id@ == c.id
            &&& r.step->Finish_0->Ok_0.result is Some
            &&& r.step->Finish_0->Ok_0.result->Some_0@ == result@
            &&& r.step->Finish_0->Ok_0.error is None
        },
        answer matches Err(reply) ==> r.step->Finish_0->Ok_0 == reply && s2.replies == s.replies,
        s2.in_flight == s.in_flight.remove(c.key),
{
}

/// If all servers are rate limited the request is delayed for just the time that was given, and
/// stays in flight. If none is in sync it fails. A server that takes the request gets it.
pub proof fn law_request_waits_for_rate_limits(
    s: ProxyState,
    c: Course,
    event: ProxyEvent,
    s2: ProxyState,
    r: Reaction,
)
    requires
        is_next(s, c, event, s2, r),
    ensures
        event matches ProxyEvent::NoServer(Some(time)) ==> {
            &&& r.step == ProxyStep::Delay(time)
            &&& !r.wake
            &&& s2 == s
        },
        event == ProxyEvent::NoServer(None) ==> {
            &&& r.step == ProxyStep::Finish(Err(ProxyError::NoServersInSync))
            &&& r.wake
            &&& s2.in_flight == s.in_flight.remove(c.key)
        },
        event is FoundServer ==> r.step == ProxyStep::Send && !r.wake && s2 == s,
        r.step is Send ==> event is FoundServer,
        r.step is Delay ==> event is NoServer,
{
}

/// A request that has waited in vain goes to a server, and leaves everything as it is.
pub proof fn law_request_that_waited_in_vain_goes_to_a_server(
    s: ProxyState,
    c: Course,
    s2: ProxyState,
    r: Reaction,
)
    requires
        is_next(s, c, ProxyEvent::Waited, s2, r),
        forall|i: int| 0 <= i < s.replies.len() ==> (#[trigger] s.replies[i]).0 != c.key,
    ensures
        r.step == ProxyStep::FindServer,
        !r.wake,
        s2 == s,
{
    law_only_what_stands_under_the_key_is_read(s.replies, c.key);
}

/// A delayed request is looked for under the head block that there is then, with the method, the
/// parameters and the id that it came with. Those that wait for it are woken.
pub proof fn law_delayed_request_stays_the_same_request(
    s: ProxyState,
    c: Course,
    head_block_hash: [u8; 32],
    ticket: u64,
    s2: ProxyState,
    r: Reaction,
)
    requires
        is_next(s, c, ProxyEvent::Delayed { head_block_hash, ticket }, s2, r),
    ensures
        r.wake,
        ({
            let c2 = next_course(c, ProxyEvent::Delayed { head_block_hash, ticket });
            &&& c2.id == c.id
            &&& c2.method == c.method
            &&& c2.params == c.params
            &&& c2.is_private == c.is_private
            &&& c2.ticket == ticket
            &&& c2.key == (Some(head_block_hash@), c.method, c.params)
            &&& c.rounds < 10 ==> c2.rounds == c.rounds + 1
        }),
        r.step == ProxyStep::FindServer ==> s2.in_flight == s.in_flight.remove(c.key).insert(
            (Some(head_block_hash@), c.method, c.params),
            ticket,
        ),
{
}

/// A request comes in with its own id, method and parameters, and with its first round ahead.
/// Other events than a delay change nothing of its course.
pub proof fn law_course_tells_of_the_request(
    request: JsonRpcRequest,
    head_block_hash: [u8; 32],
    ticket: u64,
    event: ProxyEvent,
)
    ensures
        ({
            let c = new_course(request, head_block_hash, ticket);
            &&& c.id == request.id@
            &&& c.method == request.method@
            &&& request.params is None ==> c.params is None
            &&& request.params is Some ==> c.params == json_text(request.params->Some_0@)
            &&& c.key == (Some(head_block_hash@), c.method, c.params)
            &&& c.ticket == ticket
            &&& c.rounds == 0
            &&& after_round(c).rounds == 1
            &&& after_round(c).key == c.key && after_round(c).id == c.id
            &&& after_round(c).method == c.method && after_round(c).params == c.params
            &&& after_round(c).ticket == c.ticket && after_round(c).is_private == c.is_private
            &&& !(event is Delayed) ==> next_course(c, event) == c
        }),
{
}

} // verus!
