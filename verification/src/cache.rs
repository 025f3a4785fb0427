//! The cache of replies.

use vstd::prelude::*;

use crate::json::json_text;
use crate::jsonrpc::{copy_text, JsonRpcForwardedResponse, JsonRpcRequest};
use crate::text::same_text;

verus! {

/// The cache holds fewer replies than this.
pub const RESPONSE_CACHE_CAP: usize = 1024;

/// What a reply is cached under: the head block when the request came in, and the method and
/// the parameters of the request.
pub type CacheKey = (Option<[u8; 32]>, String, Option<String>);

/// The parts of a key as plain values.
pub type KeyParts = (Option<Seq<u8>>, Seq<char>, Option<Seq<char>>);

/// The characters of a text that may be absent.
pub open spec fn text_parts(text: Option<String>) -> Option<Seq<char>> {
    match text {
        Some(t) => Some(t@),
        None => None,
    }
}

/// The parts of a key.
pub open spec fn key_parts(key: CacheKey) -> KeyParts {
    (
        match key.0 {
            Some(hash) => Some(hash@),
            None => None,
        },
        key.1@,
        text_parts(key.2),
    )
}

fn same_hash(a: &[u8; 32], b: &[u8; 32]) -> (r: bool)
    ensures
        r == (a@ == b@),
{
    let mut i: usize = 0;
    while i < 32
        invariant
            i <= 32,
            forall|j: int| 0 <= j < i ==> a@[j] == b@[j],
        decreases 32 - i,
    {
        if a[i] != b[i] {
            return false;
        }
        i = i + 1;
    }
    assert(a@ =~= b@);
    true
}

/// The key of a request whose parameters are printed as `params`.
pub fn new_key(head_block_hash: [u8; 32], method: &String, params: Option<String>) -> (key:
    CacheKey)
    ensures
        key_parts(key) == (Some(head_block_hash@), method@, text_parts(params)),
{
    (Some(head_block_hash), method.clone(), params)
}

/// A copy of a key.
pub fn copy_key(key: &CacheKey) -> (r: CacheKey)
    ensures
        key_parts(r) == key_parts(*key),
{
    (key.0, key.1.clone(), copy_text(&key.2))
}

/// Whether two keys are the same.
fn same_key(a: &CacheKey, b: &CacheKey) -> (r: bool)
    ensures
        r == (key_parts(*a) == key_parts(*b)),
{
    let same_head: bool = match (&a.0, &b.0) {
        (Some(x), Some(y)) => same_hash(x, y),
        (None, None) => true,
        _ => false,
    };
    let same_params: bool = match (&a.2, &b.2) {
        (Some(x), Some(y)) => same_text(x.as_str(), y.as_str()),
        (None, None) => true,
        _ => false,
    };
    same_head && same_params && same_text(a.1.as_str(), b.1.as_str())
}

/// No key stands twice in `s`.
pub open spec fn distinct_keys(s: Seq<(KeyParts, JsonRpcForwardedResponse)>) -> bool {
    forall|i: int, j: int|
        0 <= i < j < s.len() ==> (#[trigger] s[i]).0 != (#[trigger] s[j]).0
}

/// The key `key` stands at place `i`.
pub open spec fn key_at(
    s: Seq<(KeyParts, JsonRpcForwardedResponse)>,
    key: KeyParts,
    i: int,
) -> bool {
    0 <= i < s.len() && s[i].0 == key
}

/// The reply under the key `key`, if there is one.
pub open spec fn cached(
    s: Seq<(KeyParts, JsonRpcForwardedResponse)>,
    key: KeyParts,
) -> Option<JsonRpcForwardedResponse> {
    if exists|i: int| key_at(s, key, i) {
        Some(s[choose|i: int| key_at(s, key, i)].1)
    } else {
        None
    }
}

/// The replies without that under the key `key`.
pub open spec fn without_key(
    s: Seq<(KeyParts, JsonRpcForwardedResponse)>,
    key: KeyParts,
) -> Seq<(KeyParts, JsonRpcForwardedResponse)> {
    if exists|i: int| key_at(s, key, i) {
        s.remove(choose|i: int| key_at(s, key, i))
    } else {
        s
    }
}

/// The replies after one more has been stored: it becomes the newest, in place of any other
/// under the same key, and if the cache would be full the oldest is dropped.
pub open spec fn stored(
    s: Seq<(KeyParts, JsonRpcForwardedResponse)>,
    key: KeyParts,
    reply: JsonRpcForwardedResponse,
) -> Seq<(KeyParts, JsonRpcForwardedResponse)> {
    let longer = without_key(s, key).push((key, reply));
    if longer.len() >= RESPONSE_CACHE_CAP {
        longer.drop_first()
    } else {
        longer
    }
}

/// The replies are distinct by key, and fewer than the limit.
pub open spec fn is_cache(s: Seq<(KeyParts, JsonRpcForwardedResponse)>) -> bool {
    distinct_keys(s) && s.len() < RESPONSE_CACHE_CAP
}

/// The replies to recent requests, least recently created first. They stand in a vector, because
/// the crate `linkedhashmap`, whose map keeps this order, cannot be had from the registry.
pub struct ResponseCache {
    entries: Vec<(CacheKey, JsonRpcForwardedResponse)>,
}

impl View for ResponseCache {
    type V = Seq<(KeyParts, JsonRpcForwardedResponse)>;

    closed spec fn view(&self) -> Self::V {
        self.entries@.map_values(|e: (CacheKey, JsonRpcForwardedResponse)| (key_parts(e.0), e.1))
    }
}

impl ResponseCache {
    /// An empty cache.
    pub fn new() -> (r: Self)
        ensures
            r@.len() == 0,
            is_cache(r@),
    {
        ResponseCache { entries: Vec::new() }
    }

    /// The number of replies.
    pub fn len(&self) -> (n: usize)
        ensures
            n == self@.len(),
    {
        self.entries.len()
    }

    /// The place of a key, or the number of replies if it is not there.
    fn find(&self, key: &CacheKey) -> (p: usize)
        ensures
            p <= self@.len(),
            p < self@.len() ==> key_at(self@, key_parts(*key), p as int),
            p == self@.len() ==> forall|i: int| !key_at(self@, key_parts(*key), i),
    {
        let mut p: usize = 0;
        while p < self.entries.len()
            invariant
                p <= self.entries@.len() == self@.len(),
                forall|i: int| 0 <= i < p ==> !key_at(self@, key_parts(*key), i),
            decreases self.entries@.len() - p,
        {
            if same_key(&self.entries[p].0, key) {
                return p;
            }
            p = p + 1;
        }
        p
    }

    /// The reply under a key.
    pub fn get(&self, key: &CacheKey) -> (r: Option<JsonRpcForwardedResponse>)
        requires
            is_cache(self@),
        ensures
            r == cached(self@, key_parts(*key)),
    {
        let p: usize = self.find(key);
        if p < self.entries.len() {
            assert(key_at(self@, key_parts(*key), p as int));
            Some(self.entries[p].1.duplicate())
        } else {
            None
        }
    }

    /// Stores a reply as the newest, and drops the oldest if the cache would be full.
    pub fn store(&mut self, key: CacheKey, reply: JsonRpcForwardedResponse)
        requires
            is_cache(old(self)@),
        ensures
            is_cache(final(self)@),
            final(self)@ == stored(old(self)@, key_parts(key), reply),
    {
        let ghost before = self@;
        let ghost parts = key_parts(key);
        let p: usize = self.find(&key);
        if p < self.entries.len() {
            assert(key_at(before, parts, p as int));
            self.entries.remove(p);
        }
        assert(self@ =~= without_key(before, parts));
        self.entries.push((key, reply));
        assert(self@ =~= without_key(before, parts).push((parts, reply)));
        if self.entries.len() >= RESPONSE_CACHE_CAP {
            self.entries.remove(0);
            assert(self@ =~= without_key(before, parts).push((parts, reply)).drop_first());
        }
        proof {
            lemma_stored_is_cache(before, parts, reply);
        }
    }
}

proof fn lemma_stored_is_cache(
    s: Seq<(KeyParts, JsonRpcForwardedResponse)>,
    key: KeyParts,
    reply: JsonRpcForwardedResponse,
)
    requires
        is_cache(s),
    ensures
        is_cache(stored(s, key, reply)),
        forall|i: int| !key_at(without_key(s, key), key, i),
{
    let rest = without_key(s, key);
    if exists|i: int| key_at(s, key, i) {
        let p = choose|i: int| key_at(s, key, i);
        assert forall|i: int| 0 <= i < rest.len() implies #[trigger] rest[i] == s[if i < p {
            i
        } else {
            i + 1
        }] by {}
    }
    assert forall|i: int| !key_at(rest, key, i) by {
        if key_at(rest, key, i) && exists|i: int| key_at(s, key, i) {
            let p = choose|i: int| key_at(s, key, i);
            let q = if i < p {
                i
            } else {
                i + 1
            };
            assert(s[q].0 == s[p].0);
        }
    }
    let longer = rest.push((key, reply));
    assert forall|i: int, j: int| 0 <= i < j < longer.len() implies (#[trigger] longer[i]).0 != (
    #[trigger] longer[j]).0 by {
        if j == rest.len() {
            assert(!key_at(rest, key, i));
        }
    }
}

/// Storing keeps the keys distinct and the replies fewer than the limit.
pub proof fn law_storing_keeps_the_cache_in_order(
    s: Seq<(KeyParts, JsonRpcForwardedResponse)>,
    key: KeyParts,
    reply: JsonRpcForwardedResponse,
)
    requires
        is_cache(s),
    ensures
        is_cache(stored(s, key, reply)),
{
    lemma_stored_is_cache(s, key, reply);
}

/// What was stored last under a key is what is read under it.
pub proof fn law_read_gives_what_was_stored(
    s: Seq<(KeyParts, JsonRpcForwardedResponse)>,
    key: KeyParts,
    reply: JsonRpcForwardedResponse,
)
    requires
        is_cache(s),
    ensures
        cached(stored(s, key, reply), key) == Some(reply),
{
    lemma_stored_is_cache(s, key, reply);
    let after = stored(s, key, reply);
    let last = after.len() - 1;
    assert(after[last] == (key, reply));
    assert(key_at(after, key, last));
    let i = choose|i: int| key_at(after, key, i);
    if i < last {
        assert(after[i].0 != after[last].0);
    }
}

/// Storing a reply changes nothing under another key, but for the oldest reply, which may be
/// dropped.
pub proof fn law_storing_keeps_other_replies(
    s: Seq<(KeyParts, JsonRpcForwardedResponse)>,
    key: KeyParts,
    reply: JsonRpcForwardedResponse,
    other: KeyParts,
)
    requires
        is_cache(s),
        other != key,
        s.len() == RESPONSE_CACHE_CAP - 1 && cached(s, key) is None ==> other != s[0].0,
    ensures
        cached(stored(s, key, reply), other) == cached(s, other),
{
    lemma_stored_is_cache(s, key, reply);
    let rest = without_key(s, key);
    let after = stored(s, key, reply);
    let longer = rest.push((key, reply));
    // where each place of `after` was in `s`
    if exists|i: int| key_at(s, other, i) {
        let i = choose|i: int| key_at(s, other, i);
        let j = if exists|p: int| key_at(s, key, p) {
            let p = choose|p: int| key_at(s, key, p);
            if i < p {
                i
            } else {
                i - 1
            }
        } else {
            i
        };
        assert(rest[j] == s[i]);
        assert(longer[j] == s[i]);
        let k = if longer.len() >= RESPONSE_CACHE_CAP {
            j - 1
        } else {
            j
        };
        assert(after[k] == s[i]);
        assert(key_at(after, other, k));
        let m = choose|m: int| key_at(after, other, m);
        assert(m == k);
    } else if exists|m: int| key_at(after, other, m) {
        let m = choose|m: int| key_at(after, other, m);
        let l = if longer.len() >= RESPONSE_CACHE_CAP {
            m + 1
        } else {
            m
        };
        assert(longer[l].0 == other);
        assert(l < rest.len());
        let i = if exists|p: int| key_at(s, key, p) {
            let p = choose|p: int| key_at(s, key, p);
            if l < p {
                l
            } else {
                l + 1
            }
        } else {
            l
        };
        assert(s[i].0 == other);
        assert(key_at(s, other, i));
    }
}

/// The parameters of a request as they stand in its key.
pub open spec fn params_text(params: Option<String>) -> Option<Seq<char>> {
    match params {
        Some(raw) => json_text(raw@),
        None => None,
    }
}

/// The parts of the key of a request.
pub open spec fn key_of(head_block_hash: [u8; 32], request: JsonRpcRequest) -> KeyParts {
    (Some(head_block_hash@), request.method@, params_text(request.params))
}

/// Two keys have the same parts only if the head block, the method and the parameters are the
/// same, each as a whole.
pub proof fn law_keys_differ_in_some_part(a: CacheKey, b: CacheKey)
    ensures
        key_parts(a) == key_parts(b) <==> {
            &&& a.0 is Some <==> b.0 is Some
            &&& a.0 is Some && b.0 is Some ==> a.0->Some_0@ == b.0->Some_0@
            &&& a.1@ == b.1@
            &&& a.2 is Some <==> b.2 is Some
            &&& a.2 is Some && b.2 is Some ==> a.2->Some_0@ == b.2->Some_0@
        },
{
}

/// Two requests whose parameters are JSON have the same key if and only if they came in under the
/// same head block, have the same method, and either both lack parameters or have parameters that
/// are printed as the same whole text. Their ids do not matter.
pub proof fn law_same_key_means_same_request(
    head_a: [u8; 32],
    a: JsonRpcRequest,
    head_b: [u8; 32],
    b: JsonRpcRequest,
)
    requires
        a.params is Some ==> json_text(a.params->Some_0@) is Some,
        b.params is Some ==> json_text(b.params->Some_0@) is Some,
    ensures
        key_of(head_a, a) == key_of(head_b, b) <==> {
            &&& head_a@ == head_b@
            &&& a.method@ == b.method@
            &&& a.params is Some <==> b.params is Some
            &&& a.params is Some && b.params is Some ==> json_text(a.params->Some_0@)
                == json_text(b.params->Some_0@)
        },
{
}

/// A reply is read under a key only if it stands in the cache under that key, and if some reply
/// stands there one is read.
pub proof fn law_only_what_stands_under_the_key_is_read(
    s: Seq<(KeyParts, JsonRpcForwardedResponse)>,
    key: KeyParts,
)
    ensures
        cached(s, key) matches Some(reply) ==> s.contains((key, reply)),
        cached(s, key) is None <==> forall|i: int| 0 <= i < s.len() ==> (#[trigger] s[i]).0 != key,
{
    if exists|i: int| key_at(s, key, i) {
        let i = choose|i: int| key_at(s, key, i);
        assert(s[i] == (key, s[i].1));
        assert(s[i].0 == key);
    } else {
        assert forall|i: int| 0 <= i < s.len() implies (#[trigger] s[i]).0 != key by {
            assert(!key_at(s, key, i));
        }
    }
}

/// With a new key a reply is added at the end. As long as there are fewer than 1023 replies all
/// others stay; of 1023 replies the first is dropped.
pub proof fn law_new_reply_comes_last_and_the_oldest_goes(
    s: Seq<(KeyParts, JsonRpcForwardedResponse)>,
    key: KeyParts,
    reply: JsonRpcForwardedResponse,
)
    requires
        forall|i: int| 0 <= i < s.len() ==> (#[trigger] s[i]).0 != key,
        s.len() <= 1023,
    ensures
        s.len() < 1023 ==> stored(s, key, reply) == s.push((key, reply)),
        s.len() == 1023 ==> stored(s, key, reply) == s.skip(1).push((key, reply)),
{
    assert forall|i: int| !key_at(s, key, i) by {}
    if s.len() == 1023 {
        assert(s.push((key, reply)).drop_first() =~= s.skip(1).push((key, reply)));
    }
}

/// A reply that is stored again under its key goes to the end, and all others stay in order.
pub proof fn law_reply_that_is_stored_again_comes_last(
    s: Seq<(KeyParts, JsonRpcForwardedResponse)>,
    p: int,
    reply: JsonRpcForwardedResponse,
)
    requires
        0 <= p < s.len() <= 1023,
        forall|i: int| 0 <= i < s.len() && i != p ==> (#[trigger] s[i]).0 != s[p].0,
    ensures
        stored(s, s[p].0, reply) == (s.take(p) + s.skip(p + 1)).push((s[p].0, reply)),
{
    let key = s[p].0;
    assert(key_at(s, key, p));
    let q = choose|i: int| key_at(s, key, i);
    assert(q == p);
    assert(s.remove(p) =~= s.take(p) + s.skip(p + 1));
}

} // verus!
