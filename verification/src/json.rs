//! JSON text.

use vstd::prelude::*;
use vstd::string::*;

verus! {

/// The text that `serde_json` prints of the value that it reads from the text `raw`, or nothing
/// if `raw` is not JSON.
pub uninterp spec fn json_text(raw: Seq<char>) -> Option<Seq<char>>;

/// `serde_json::Value::to_string` of the value that `serde_json::from_str` reads from `raw`. The
/// result depends on `raw` alone.
#[verifier::external_body]
pub(crate) fn value_text(raw: &String) -> (r: Option<String>)
    ensures
        r is Some <==> json_text(raw@) is Some,
        r matches Some(text) ==> json_text(raw@) == Some(text@),
{
    serde_json::from_str::<serde_json::Value>(raw).ok().map(|value| value.to_string())
}

/// The text needs no escapes inside JSON quotes.
pub open spec fn is_plain(text: Seq<char>) -> bool {
    forall|i: int|
        0 <= i < text.len() ==> {
            &&& (#[trigger] text[i] as u32) >= 0x20
            &&& text[i] != '"'
            &&& text[i] != '\\'
        }
}

/// Every text without quotes, backslashes and control characters is plain, and no other.
pub proof fn law_plain_text_has_nothing_to_escape(text: Seq<char>)
    ensures
        is_plain(text) <==> {
            &&& !text.contains('"')
            &&& !text.contains('\\')
            &&& forall|c: char| #[trigger] text.contains(c) ==> (c as u32) >= 0x20
        },
{
    assert forall|i: int| 0 <= i < text.len() implies text.contains(#[trigger] text[i]) by {}
}

/// Whether the text needs no escapes inside JSON quotes.
pub fn check_plain(text: &str) -> (r: bool)
    ensures
        r == is_plain(text@),
{
    let n: usize = text.unicode_len();
    let mut i: usize = 0;
    while i < n
        invariant
            i <= n == text@.len(),
            is_plain(text@.take(i as int)),
        decreases n - i,
    {
        let c = text.get_char(i);
        assert(text@.take(i as int + 1)[i as int] == c);
        if (c as u32) < 0x20 || c == '"' || c == '\\' {
            return false;
        }
        assert forall|j: int| 0 <= j < i implies text@.take(i as int + 1)[j] == text@.take(
            i as int,
        )[j] by {}
        i = i + 1;
    }
    assert(text@.take(n as int) =~= text@);
    true
}

/// Plain texts in quotes, with commas between them.
pub open spec fn quoted_list(texts: Seq<Seq<char>>) -> Seq<char>
    decreases texts.len(),
{
    if texts.len() == 0 {
        Seq::empty()
    } else if texts.len() == 1 {
        seq!['"'] + texts[0] + seq!['"']
    } else {
        quoted_list(texts.drop_last()) + seq![',', '"'] + texts.last() + seq!['"']
    }
}

/// `serde_json::to_string` of a list of texts that need no escapes: each in quotes, with commas
/// between them, in square brackets.
#[verifier::external_body]
pub(crate) fn text_list_json(texts: &Vec<String>) -> (r: String)
    requires
        forall|i: int| 0 <= i < texts@.len() ==> is_plain((#[trigger] texts@[i])@),
    ensures
        r@ == seq!['['] + quoted_list(texts@.map_values(|t: String| t@)) + seq![']'],
{
    serde_json::to_string(texts).unwrap()
}

} // verus!
