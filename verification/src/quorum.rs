//! The answer that most servers agree on.

use vstd::multiset::Multiset;
use vstd::prelude::*;
use vstd::seq_lib::{to_multiset_build, to_multiset_contains};
use vstd::string::*;

use crate::connections::Web3Connections;
use crate::jsonrpc::ProviderError;
use crate::lookup::{look_up, new_map, numbers, put, take_out};
use crate::tally::{count_one, listed_before, most_common, new_tally, tally};
use crate::text::{lemma_text_before_is_asymmetric, parts_at, text_before};

verus! {

/// The text by which answers are told apart: what formatting the answer with `{:?}` gives.
pub open spec fn answer_text(answer: Result<String, ProviderError>) -> Seq<char> {
    match answer {
        Ok(json) => "Ok(RawValue("@ + json@ + "))"@,
        Err(e) => "Err("@ + e.debug@ + ")"@,
    }
}

/// How many of the answers have the text `text`.
pub open spec fn votes(answers: Seq<Result<String, ProviderError>>, text: Seq<char>) -> nat {
    answers.filter(|a: Result<String, ProviderError>| answer_text(a) == text).len()
}

/// Some answer is a success.
pub open spec fn any_ok(answers: Seq<Result<String, ProviderError>>) -> bool {
    exists|i: int| 0 <= i < answers.len() && #[trigger] answers[i] is Ok
}

/// The answer at `i` can be returned: errors are passed over if there is a success.
pub open spec fn eligible(answers: Seq<Result<String, ProviderError>>, i: int) -> bool {
    &&& 0 <= i < answers.len()
    &&& any_ok(answers) ==> answers[i] is Ok
}

/// The answer at `w` is the most common one that can be returned, and the first of its text.
/// Among equally common answers it is the one with the smallest text.
pub open spec fn is_quorum(answers: Seq<Result<String, ProviderError>>, w: int) -> bool {
    &&& eligible(answers, w)
    &&& forall|j: int|
        0 <= j < w ==> answer_text(#[trigger] answers[j]) != answer_text(answers[w])
    &&& forall|j: int| #[trigger]
        eligible(answers, j) && answer_text(answers[j]) != answer_text(answers[w])
            ==> listed_before(
            (answer_text(answers[w]), votes(answers, answer_text(answers[w]))),
            (answer_text(answers[j]), votes(answers, answer_text(answers[j]))),
        )
}

/// A success and an error never have the same text.
proof fn lemma_ok_and_err_differ(a: Result<String, ProviderError>, b: Result<String, ProviderError>)
    requires
        a is Ok,
        b is Err,
    ensures
        answer_text(a) != answer_text(b),
{
    reveal_strlit("Ok(RawValue(");
    reveal_strlit("Err(");
    assert(answer_text(a)[0] == 'O');
    assert(answer_text(b)[0] == 'E');
}

/// There is only one answer that is the quorum of given answers.
pub proof fn law_quorum_is_unique(answers: Seq<Result<String, ProviderError>>, v: int, w: int)
    requires
        is_quorum(answers, v),
        is_quorum(answers, w),
    ensures
        v == w,
{
    if answer_text(answers[v]) != answer_text(answers[w]) {
        let tv = answer_text(answers[v]);
        let tw = answer_text(answers[w]);
        assert(eligible(answers, v) && eligible(answers, w));
        if text_before(tv, tw) {
            lemma_text_before_is_asymmetric(tv, tw);
        }
    }
}

/// If some server answered with a success the quorum is a success, and no answer that can be
/// returned is more common than the quorum.
pub proof fn law_quorum_is_most_common(
    answers: Seq<Result<String, ProviderError>>,
    w: int,
    j: int,
)
    requires
        is_quorum(answers, w),
        eligible(answers, j),
    ensures
        any_ok(answers) <==> answers[w] is Ok,
        votes(answers, answer_text(answers[j])) <= votes(answers, answer_text(answers[w])),
{
}

/// Answers are told apart by the whole of what they say: two have the same text only if both are
/// the same result, or both are errors with the same debug text.
pub proof fn law_answers_are_told_apart_by_all_they_say(
    a: Result<String, ProviderError>,
    b: Result<String, ProviderError>,
)
    ensures
        answer_text(a) == answer_text(b) <==> {
            ||| a is Ok && b is Ok && a->Ok_0@ == b->Ok_0@
            ||| a is Err && b is Err && a->Err_0.debug@ == b->Err_0.debug@
        },
{
    if answer_text(a) == answer_text(b) {
        match (a, b) {
            (Ok(x), Ok(y)) => {
                lemma_same_middle("Ok(RawValue("@, x@, y@, "))"@);
            },
            (Err(x), Err(y)) => {
                lemma_same_middle("Err("@, x.debug@, y.debug@, ")"@);
            },
            (Ok(_), Err(_)) => {
                lemma_ok_and_err_differ(a, b);
            },
            (Err(_), Ok(_)) => {
                lemma_ok_and_err_differ(b, a);
            },
        }
    }
}

proof fn lemma_same_middle(start: Seq<char>, x: Seq<char>, y: Seq<char>, end: Seq<char>)
    requires
        start + x + end == start + y + end,
    ensures
        x == y,
{
    let whole = start + x + end;
    assert(whole.len() == start.len() + x.len() + end.len());
    assert((start + y + end).len() == start.len() + y.len() + end.len());
    assert forall|i: int| 0 <= i < x.len() implies x[i] == y[i] by {
        assert(whole[start.len() + i] == x[i]);
        assert((start + y + end)[start.len() + i] == y[i]);
    }
    assert(x =~= y);
}

/// A result that is returned was given by at least as many servers as any other result, counted
/// by the results themselves.
pub proof fn law_returned_result_is_the_most_common_one(
    answers: Seq<Result<String, ProviderError>>,
    w: int,
    j: int,
)
    requires
        is_quorum(answers, w),
        0 <= j < answers.len(),
        answers[j] is Ok,
    ensures
        0 <= w < answers.len(),
        answers[w] is Ok,
        answers.filter(
            |a: Result<String, ProviderError>| a is Ok && a->Ok_0@ == answers[j]->Ok_0@,
        ).len() <= answers.filter(
            |a: Result<String, ProviderError>| a is Ok && a->Ok_0@ == answers[w]->Ok_0@,
        ).len(),
{
    assert(any_ok(answers));
    assert(eligible(answers, j));
    lemma_votes_for_result(answers, w);
    lemma_votes_for_result(answers, j);
}

/// An error is returned only if no server gave a result. It was given by at least as many servers
/// as any other error, counted by the errors themselves.
pub proof fn law_returned_error_is_the_most_common_one(
    answers: Seq<Result<String, ProviderError>>,
    w: int,
    j: int,
)
    requires
        is_quorum(answers, w),
        answers[w] is Err,
        0 <= j < answers.len(),
    ensures
        answers[j] is Err,
        answers.filter(
            |a: Result<String, ProviderError>|
                a is Err && a->Err_0.debug@ == answers[j]->Err_0.debug@,
        ).len() <= answers.filter(
            |a: Result<String, ProviderError>|
                a is Err && a->Err_0.debug@ == answers[w]->Err_0.debug@,
        ).len(),
{
    if answers[j] is Ok {
        assert(any_ok(answers));
    }
    assert(eligible(answers, j));
    lemma_votes_for_error(answers, w);
    lemma_votes_for_error(answers, j);
}

/// Of two results that equally many servers gave, and of which neither begins with the other, the
/// one with the smaller code point at the first difference is returned.
pub proof fn law_ties_go_to_the_smaller_result(
    answers: Seq<Result<String, ProviderError>>,
    w: int,
    j: int,
    d: int,
)
    requires
        is_quorum(answers, w),
        0 <= j < answers.len(),
        answers[w] is Ok,
        answers[j] is Ok,
        answers.filter(
            |a: Result<String, ProviderError>| a is Ok && a->Ok_0@ == answers[j]->Ok_0@,
        ).len() == answers.filter(
            |a: Result<String, ProviderError>| a is Ok && a->Ok_0@ == answers[w]->Ok_0@,
        ).len(),
        0 <= d < answers[w]->Ok_0@.len(),
        d < answers[j]->Ok_0@.len(),
        answers[w]->Ok_0@.take(d) == answers[j]->Ok_0@.take(d),
        answers[w]->Ok_0@[d] != answers[j]->Ok_0@[d],
    ensures
        (answers[w]->Ok_0@[d] as u32) < (answers[j]->Ok_0@[d] as u32),
{
    let x = answers[w]->Ok_0@;
    let y = answers[j]->Ok_0@;
    let tx = answer_text(answers[w]);
    let ty = answer_text(answers[j]);
    let n = "Ok(RawValue("@.len() as int;
    assert(any_ok(answers));
    assert(eligible(answers, j));
    lemma_votes_for_result(answers, w);
    lemma_votes_for_result(answers, j);
    assert forall|k: int| 0 <= k < d implies x[k] == y[k] by {
        assert(x.take(d)[k] == y.take(d)[k]);
    }
    assert forall|k: int| 0 <= k < n + d implies tx[k] == ty[k] by {
        if k >= n {
            assert(tx[k] == x[k - n] && ty[k] == y[k - n]);
        }
    }
    assert(tx[n + d] == x[d] && ty[n + d] == y[d]);
    law_answers_are_told_apart_by_all_they_say(answers[w], answers[j]);
    assert(text_before(tx, ty));
    let i = choose|i: int| #[trigger] parts_at(tx, ty, i);
    if i < n + d {
        assert(tx[i] == ty[i]);
    } else if i > n + d {
        assert(tx[n + d] == ty[n + d]);
    }
}

/// Of two answers that equally many servers gave and that can both be returned, the one whose
/// debug text comes first is returned.
pub proof fn law_ties_go_to_the_smaller_debug_text(
    answers: Seq<Result<String, ProviderError>>,
    w: int,
    j: int,
)
    requires
        is_quorum(answers, w),
        0 <= j < answers.len(),
    ensures
        answers[w] is Ok && answers[j] is Ok && answers[w]->Ok_0@ != answers[j]->Ok_0@
            && answers.filter(
            |a: Result<String, ProviderError>| a is Ok && a->Ok_0@ == answers[j]->Ok_0@,
        ).len() == answers.filter(
            |a: Result<String, ProviderError>| a is Ok && a->Ok_0@ == answers[w]->Ok_0@,
        ).len() ==> text_before(
            "Ok(RawValue("@ + answers[w]->Ok_0@ + "))"@,
            "Ok(RawValue("@ + answers[j]->Ok_0@ + "))"@,
        ),
        answers[w] is Err && answers[j] is Err && answers[w]->Err_0.debug@
            != answers[j]->Err_0.debug@ && answers.filter(
            |a: Result<String, ProviderError>|
                a is Err && a->Err_0.debug@ == answers[j]->Err_0.debug@,
        ).len() == answers.filter(
            |a: Result<String, ProviderError>|
                a is Err && a->Err_0.debug@ == answers[w]->Err_0.debug@,
        ).len() ==> text_before(
            "Err("@ + answers[w]->Err_0.debug@ + ")"@,
            "Err("@ + answers[j]->Err_0.debug@ + ")"@,
        ),
{
    law_answers_are_told_apart_by_all_they_say(answers[w], answers[j]);
    if answers[w] is Ok && answers[j] is Ok {
        assert(eligible(answers, j));
        lemma_votes_for_result(answers, w);
        lemma_votes_for_result(answers, j);
    }
    if answers[w] is Err && answers[j] is Err {
        assert(eligible(answers, j));
        lemma_votes_for_error(answers, w);
        lemma_votes_for_error(answers, j);
    }
}

proof fn lemma_filters_agree<A>(s: Seq<A>, p: spec_fn(A) -> bool, q: spec_fn(A) -> bool)
    requires
        forall|a: A| #[trigger] p(a) == q(a),
    ensures
        s.filter(p).len() == s.filter(q).len(),
    decreases s.len(),
{
    if s.len() == 0 {
        s.lemma_filter_len(p);
        s.lemma_filter_len(q);
    } else {
        let shorter = s.drop_last();
        lemma_filters_agree(shorter, p, q);
        assert(s =~= shorter.push(s.last()));
        shorter.lemma_filter_len_push(p, s.last());
        shorter.lemma_filter_len_push(q, s.last());
        assert(p(s.last()) == q(s.last()));
    }
}

proof fn lemma_votes_for_result(answers: Seq<Result<String, ProviderError>>, i: int)
    requires
        0 <= i < answers.len(),
        answers[i] is Ok,
    ensures
        votes(answers, answer_text(answers[i])) == answers.filter(
            |a: Result<String, ProviderError>| a is Ok && a->Ok_0@ == answers[i]->Ok_0@,
        ).len(),
{
    let text = answer_text(answers[i]);
    let p = |a: Result<String, ProviderError>| answer_text(a) == text;
    let q = |a: Result<String, ProviderError>| a is Ok && a->Ok_0@ == answers[i]->Ok_0@;
    assert forall|a: Result<String, ProviderError>| #[trigger] p(a) == q(a) by {
        law_answers_are_told_apart_by_all_they_say(a, answers[i]);
    }
    lemma_filters_agree(answers, p, q);
}

proof fn lemma_votes_for_error(answers: Seq<Result<String, ProviderError>>, i: int)
    requires
        0 <= i < answers.len(),
        answers[i] is Err,
    ensures
        votes(answers, answer_text(answers[i])) == answers.filter(
            |a: Result<String, ProviderError>|
                a is Err && a->Err_0.debug@ == answers[i]->Err_0.debug@,
        ).len(),
{
    let text = answer_text(answers[i]);
    let p = |a: Result<String, ProviderError>| answer_text(a) == text;
    let q = |a: Result<String, ProviderError>|
        a is Err && a->Err_0.debug@ == answers[i]->Err_0.debug@;
    assert forall|a: Result<String, ProviderError>| #[trigger] p(a) == q(a) by {
        law_answers_are_told_apart_by_all_they_say(a, answers[i]);
    }
    lemma_filters_agree(answers, p, q);
}

/// The quorum does not depend on the order in which the servers answered.
pub proof fn law_quorum_does_not_depend_on_order(
    a: Seq<Result<String, ProviderError>>,
    b: Seq<Result<String, ProviderError>>,
    v: int,
    w: int,
)
    requires
        a.to_multiset() == b.to_multiset(),
        is_quorum(a, v),
        is_quorum(b, w),
    ensures
        answer_text(a[v]) == answer_text(b[w]),
        a[v] is Ok <==> b[w] is Ok,
{
    let ta = answer_text(a[v]);
    let tb = answer_text(b[w]);
    lemma_votes_of_multiset(a, ta);
    lemma_votes_of_multiset(a, tb);
    lemma_votes_of_multiset(b, ta);
    lemma_votes_of_multiset(b, tb);
    lemma_answer_is_in_both(a, b, v);
    lemma_answer_is_in_both(b, a, w);
    let i = choose|i: int| 0 <= i < b.len() && b[i] == a[v];
    let j = choose|j: int| 0 <= j < a.len() && a[j] == b[w];
    if any_ok(a) {
        let k = choose|k: int| 0 <= k < a.len() && #[trigger] a[k] is Ok;
        lemma_answer_is_in_both(a, b, k);
        let m = choose|m: int| 0 <= m < b.len() && b[m] == a[k];
        assert(b[m] is Ok);
    }
    if any_ok(b) {
        let k = choose|k: int| 0 <= k < b.len() && #[trigger] b[k] is Ok;
        lemma_answer_is_in_both(b, a, k);
        let m = choose|m: int| 0 <= m < a.len() && a[m] == b[k];
        assert(a[m] is Ok);
    }
    assert(eligible(b, i));
    assert(eligible(a, j));
    if ta != tb && text_before(ta, tb) {
        lemma_text_before_is_asymmetric(ta, tb);
    }
}

proof fn lemma_answer_is_in_both(
    a: Seq<Result<String, ProviderError>>,
    b: Seq<Result<String, ProviderError>>,
    i: int,
)
    requires
        a.to_multiset() == b.to_multiset(),
        0 <= i < a.len(),
    ensures
        exists|j: int| 0 <= j < b.len() && b[j] == a[i],
{
    assert(a.contains(a[i]));
    to_multiset_contains(a, a[i]);
    to_multiset_contains(b, a[i]);
}

proof fn lemma_votes_of_multiset(a: Seq<Result<String, ProviderError>>, text: Seq<char>)
    ensures
        votes(a, text) == a.to_multiset().filter(
            |x: Result<String, ProviderError>| answer_text(x) == text,
        ).len(),
    decreases a.len(),
{
    let named = |x: Result<String, ProviderError>| answer_text(x) == text;
    a.to_multiset_ensures();
    if a.len() == 0 {
        a.lemma_filter_len(named);
        assert(a =~= Seq::<Result<String, ProviderError>>::empty());
        assert(a.to_multiset().filter(named) =~= Multiset::empty());
    } else {
        let shorter = a.drop_last();
        let last = a.last();
        lemma_votes_of_multiset(shorter, text);
        assert(a =~= shorter.push(last));
        shorter.lemma_filter_len_push(named, last);
        to_multiset_build(shorter, last);
        assert(a.to_multiset() =~= shorter.to_multiset().insert(last));
        if named(last) {
            assert(a.to_multiset().filter(named) =~= shorter.to_multiset().filter(named).insert(
                last,
            ));
        } else {
            assert(a.to_multiset().filter(named) =~= shorter.to_multiset().filter(named));
        }
    }
}

/// The answer at `p` is the first with the text `text`.
spec fn is_first(answers: Seq<Result<String, ProviderError>>, text: Seq<char>, p: int) -> bool {
    &&& 0 <= p < answers.len()
    &&& answer_text(answers[p]) == text
    &&& forall|j: int| 0 <= j < p ==> answer_text(#[trigger] answers[j]) != text
}

/// `text` is in `list`.
spec fn is_listed(list: Seq<(String, usize)>, text: Seq<char>) -> bool {
    exists|m: int| 0 <= m < list.len() && (#[trigger] list[m]).0@ == text
}

/// `list` holds the text of every answer with its votes, in order.
spec fn is_listing(answers: Seq<Result<String, ProviderError>>, list: Seq<(String, usize)>) -> bool {
    &&& forall|m: int|
        0 <= m < list.len() ==> votes(answers, (#[trigger] list[m]).0@) == list[m].1
    &&& forall|i: int|
        0 <= i < answers.len() ==> is_listed(list, answer_text(#[trigger] answers[i]))
    &&& forall|m: int, n: int|
        0 <= m < n < list.len() ==> listed_before(
            ((#[trigger] list[m]).0@, list[m].1 as nat),
            ((#[trigger] list[n]).0@, list[n].1 as nat),
        )
}

/// The first answer with the text `text` cannot be returned.
spec fn passed_over(answers: Seq<Result<String, ProviderError>>, text: Seq<char>) -> bool {
    exists|p: int| #[trigger] is_first(answers, text, p) && !eligible(answers, p)
}

proof fn lemma_votes_step(answers: Seq<Result<String, ProviderError>>, i: int)
    requires
        0 <= i < answers.len(),
    ensures
        forall|k: Seq<char>| #[trigger]
            votes(answers.take(i + 1), k) == votes(answers.take(i), k) + if answer_text(answers[i])
                == k {
                1nat
            } else {
                0nat
            },
{
    assert(answers.take(i + 1) =~= answers.take(i).push(answers[i]));
    assert forall|k: Seq<char>| #[trigger]
        votes(answers.take(i + 1), k) == votes(answers.take(i), k) + if answer_text(answers[i])
            == k {
            1nat
        } else {
            0nat
        } by {
        answers.take(i).lemma_filter_len_push(
            |a: Result<String, ProviderError>| answer_text(a) == k,
            answers[i],
        );
    }
}

proof fn lemma_vote_counts(answers: Seq<Result<String, ProviderError>>, i: int)
    requires
        0 <= i < answers.len(),
    ensures
        votes(answers, answer_text(answers[i])) > 0,
{
    let text = answer_text(answers[i]);
    answers.lemma_filter_contains(
        |a: Result<String, ProviderError>| answer_text(a) == text,
        i,
    );
}

proof fn lemma_votes_bound(answers: Seq<Result<String, ProviderError>>, text: Seq<char>)
    ensures
        votes(answers, text) <= answers.len(),
{
    answers.lemma_filter_len(|a: Result<String, ProviderError>| answer_text(a) == text);
}

proof fn lemma_listed_once(
    answers: Seq<Result<String, ProviderError>>,
    list: Seq<(String, usize)>,
    m: int,
    n: int,
)
    requires
        is_listing(answers, list),
        0 <= m < n < list.len(),
    ensures
        list[m].0@ != list[n].0@,
{
    if list[m].0@ == list[n].0@ {
        assert(text_before(list[m].0@, list[n].0@));
        lemma_text_before_is_asymmetric(list[m].0@, list[n].0@);
    }
}

proof fn lemma_quorum_at(
    answers: Seq<Result<String, ProviderError>>,
    list: Seq<(String, usize)>,
    j: int,
    w: int,
)
    requires
        is_listing(answers, list),
        0 <= j < list.len(),
        is_first(answers, list[j].0@, w),
        eligible(answers, w),
        forall|m: int|
            0 <= m < j ==> passed_over(answers, (#[trigger] list[m]).0@),
    ensures
        is_quorum(answers, w),
{
    assert forall|i: int| #[trigger]
        eligible(answers, i) && answer_text(answers[i]) != answer_text(
            answers[w],
        ) implies listed_before(
        (answer_text(answers[w]), votes(answers, answer_text(answers[w]))),
        (answer_text(answers[i]), votes(answers, answer_text(answers[i]))),
    ) by {
        let m = choose|m: int|
            0 <= m < list.len() && (#[trigger] list[m]).0@ == answer_text(answers[i]);
        if m < j {
            let p = choose|p: int| #[trigger]
                is_first(answers, list[m].0@, p) && !eligible(answers, p);
            lemma_ok_and_err_differ(answers[i], answers[p]);
        }
    }
}

fn text_of(answer: &Result<String, ProviderError>) -> (r: String)
    ensures
        r@ == answer_text(*answer),
{
    match answer {
        Ok(json) => "Ok(RawValue(".to_owned().concat(json.as_str()).concat("))"),
        Err(e) => "Err(".to_owned().concat(e.debug.as_str()).concat(")"),
    }
}

impl Web3Connections {
    /// Of the answers that all servers gave to the same request, the most common success, or if
    /// there is none the most common error.
    pub fn try_send_parallel_requests(
        &self,
        answers: Vec<Result<String, ProviderError>>,
    ) -> (r: Result<String, ProviderError>)
        requires
            answers@.len() > 0,
        ensures
            exists|w: int| #[trigger] is_quorum(answers@, w) && r == answers@[w],
    {
        let ghost all = answers@;
        let mut pool = answers;
        let n: usize = pool.len();
        // the place of the first answer with each text
        let mut firsts = new_map();
        let mut counts = new_tally();
        let mut found_ok: bool = false;
        let mut i: usize = 0;
        while i < n
            invariant
                pool@ == all,
                all == answers@,
                i <= n == all.len(),
                forall|k: Seq<char>| #[trigger]
                    numbers(firsts).contains_key(k) <==> votes(all.take(i as int), k) > 0,
                forall|k: Seq<char>| #[trigger]
                    tally(counts).contains_key(k) <==> votes(all.take(i as int), k) > 0,
                forall|k: Seq<char>| #[trigger]
                    tally(counts).contains_key(k) ==> tally(counts)[k] == votes(
                        all.take(i as int),
                        k,
                    ),
                forall|k: Seq<char>| #[trigger]
                    numbers(firsts).contains_key(k) ==> is_first(all, k, numbers(firsts)[k] as int),
                forall|k: Seq<char>| #[trigger]
                    numbers(firsts).contains_key(k) ==> numbers(firsts)[k] < i,
                found_ok == any_ok(all.take(i as int)),
            decreases all.len() - i,
        {
            let text = text_of(&pool[i]);
            let ghost before = all.take(i as int);
            proof {
                lemma_votes_step(all, i as int);
                lemma_votes_bound(before, text@);
            }
            if look_up(&firsts, &text).is_none() {
                proof {
                    assert(votes(before, text@) == 0);
                    assert forall|j: int| 0 <= j < i implies answer_text(#[trigger] all[j])
                        != text@ by {
                        lemma_vote_counts(before, j);
                        assert(before[j] == all[j]);
                    }
                }
                if pool[i].is_ok() {
                    found_ok = true;
                    assert(all.take(i as int + 1)[i as int] is Ok);
                }
                put(&mut firsts, text.clone(), i as u64);
            } else {
                proof {
                    let p = numbers(firsts)[text@] as int;
                    assert(is_first(all, text@, p));
                    if all[i as int] is Ok {
                        if all[p] is Err {
                            lemma_ok_and_err_differ(all[i as int], all[p]);
                        }
                        assert(before[p] is Ok);
                    }
                }
            }
            count_one(&mut counts, text);
            proof {
                let after = all.take(i as int + 1);
                if any_ok(before) {
                    let j = choose|j: int| 0 <= j < before.len() && #[trigger] before[j] is Ok;
                    assert(after[j] is Ok);
                }
                if any_ok(after) {
                    let j = choose|j: int| 0 <= j < after.len() && #[trigger] after[j] is Ok;
                    if j < i {
                        assert(before[j] is Ok);
                    }
                }
            }
            i = i + 1;
        }
        assert(all.take(i as int) =~= all);
        let list = most_common(&counts);
        let listed: usize = list.len();
        // some answer can be returned, and its text is listed
        let ghost e = if any_ok(all) {
            choose|e: int| 0 <= e < all.len() && #[trigger] all[e] is Ok
        } else {
            0
        };
        proof {
            assert forall|m: int| 0 <= m < all.len() implies is_listed(
                list@,
                answer_text(#[trigger] all[m]),
            ) by {
                lemma_vote_counts(all, m);
                assert(tally(counts).contains_key(answer_text(all[m])));
            }
            assert(is_listing(all, list@));
            assert(is_listed(list@, answer_text(all[e])));
        }
        let ghost target = choose|m: int|
            0 <= m < list@.len() && (#[trigger] list@[m]).0@ == answer_text(all[e]);
        let mut j: usize = 0;
        loop
            invariant
                pool@ == all,
                all == answers@,
                is_listing(all, list@),
                eligible(all, e),
                j <= target < list@.len() == listed,
                list@[target].0@ == answer_text(all[e]),
                found_ok == any_ok(all),
                forall|m: int|
                    j <= m < list@.len() ==> numbers(firsts).contains_key(
                        (#[trigger] list@[m]).0@,
                    ),
                forall|k: Seq<char>| #[trigger]
                    numbers(firsts).contains_key(k) ==> is_first(all, k, numbers(firsts)[k] as int)
                        && numbers(firsts)[k] <= usize::MAX,
                forall|m: int|
                    0 <= m < j ==> passed_over(all, (#[trigger] list@[m]).0@),
            decreases list@.len() - j,
        {
            let ghost before = firsts;
            let w: usize = take_out(&mut firsts, &list[j].0).unwrap() as usize;
            assert(is_first(all, list@[j as int].0@, w as int));
            if found_ok && pool[w].is_err() {
                // errors were more common, but there is a success
                proof {
                    assert(!eligible(all, w as int));
                    if j == target {
                        lemma_ok_and_err_differ(all[e], all[w as int]);
                    }
                    assert forall|m: int| j + 1 <= m < list@.len() implies numbers(
                        firsts,
                    ).contains_key((#[trigger] list@[m]).0@) by {
                        lemma_listed_once(all, list@, j as int, m);
                        assert(numbers(before).contains_key(list@[m].0@));
                    }
                }
                j = j + 1;
            } else {
                proof {
                    lemma_quorum_at(all, list@, j as int, w as int);
                }
                return pool.swap_remove(w);
            }
        }
    }
}

} // verus!
