//! Text: comparison, prefixes and decimal numbers.

use vstd::prelude::*;
use vstd::string::*;

verus! {

/// `a` comes strictly before `b` in the order of strings: the first place where they differ
/// holds a smaller code point in `a`, or `a` ends there.
pub open spec fn text_before(a: Seq<char>, b: Seq<char>) -> bool {
    exists|i: int| #[trigger] parts_at(a, b, i)
}

/// `a` and `b` agree before `i`, and at `i` the text `a` ends or has the smaller code point.
pub open spec fn parts_at(a: Seq<char>, b: Seq<char>, i: int) -> bool {
    &&& 0 <= i <= a.len()
    &&& i < b.len()
    &&& forall|j: int| 0 <= j < i ==> a[j] == b[j]
    &&& i < a.len() ==> (a[i] as u32) < (b[i] as u32)
}

/// Of two texts at most one comes before the other.
pub proof fn lemma_text_before_is_asymmetric(a: Seq<char>, b: Seq<char>)
    requires
        text_before(a, b),
    ensures
        !text_before(b, a),
{
    let i = choose|i: int| #[trigger] parts_at(a, b, i);
    if text_before(b, a) {
        let j = choose|j: int| #[trigger] parts_at(b, a, j);
        if i < j {
            assert(b[i] == a[i]);
        } else if j < i {
            assert(a[j] == b[j]);
        }
    }
}

proof fn lemma_different_chars_are_ordered(x: char, y: char)
    requires
        x != y,
    ensures
        (x as u32) < (y as u32) || (y as u32) < (x as u32),
{
    assert(x as u32 == x as int);
    assert(y as u32 == y as int);
}

/// Of two different texts one comes before the other.
pub proof fn law_different_texts_are_ordered(a: Seq<char>, b: Seq<char>)
    requires
        a != b,
    ensures
        text_before(a, b) || text_before(b, a),
    decreases a.len(),
{
    if a.len() == 0 || b.len() == 0 {
        if a.len() == 0 {
            assert(b.len() != 0) by {
                if b.len() == 0 {
                    assert(a =~= b);
                }
            }
            assert(parts_at(a, b, 0));
        } else {
            assert(parts_at(b, a, 0));
        }
    } else if a[0] != b[0] {
        lemma_different_chars_are_ordered(a[0], b[0]);
        if (a[0] as u32) < (b[0] as u32) {
            assert(parts_at(a, b, 0));
        } else {
            assert(parts_at(b, a, 0));
        }
    } else {
        let ra = a.skip(1);
        let rb = b.skip(1);
        if ra == rb {
            assert(a =~= seq![a[0]] + ra);
            assert(b =~= seq![b[0]] + rb);
        }
        law_different_texts_are_ordered(ra, rb);
        if text_before(ra, rb) {
            let i = choose|i: int| #[trigger] parts_at(ra, rb, i);
            assert forall|j: int| 0 <= j < i + 1 implies a[j] == b[j] by {
                if j > 0 {
                    assert(ra[j - 1] == rb[j - 1]);
                }
            }
            if i < ra.len() {
                assert(ra[i] == a[i + 1] && rb[i] == b[i + 1]);
            }
            assert(parts_at(a, b, i + 1));
        } else {
            let i = choose|i: int| #[trigger] parts_at(rb, ra, i);
            assert forall|j: int| 0 <= j < i + 1 implies b[j] == a[j] by {
                if j > 0 {
                    assert(ra[j - 1] == rb[j - 1]);
                }
            }
            if i < rb.len() {
                assert(ra[i] == a[i + 1] && rb[i] == b[i + 1]);
            }
            assert(parts_at(b, a, i + 1));
        }
    }
}

/// The order of texts is that of their first difference: before a common beginning and a smaller
/// code point stands nothing that begins in the same way and has a larger one.
pub proof fn law_first_difference_decides(
    start: Seq<char>,
    x: char,
    rest_x: Seq<char>,
    y: char,
    rest_y: Seq<char>,
)
    requires
        (x as u32) < (y as u32),
    ensures
        text_before(start.push(x) + rest_x, start.push(y) + rest_y),
        !text_before(start.push(y) + rest_y, start.push(x) + rest_x),
        text_before(start, start.push(x) + rest_x),
{
    let a = start.push(x) + rest_x;
    let b = start.push(y) + rest_y;
    assert(parts_at(a, b, start.len() as int));
    lemma_text_before_is_asymmetric(a, b);
    assert(parts_at(start, a, start.len() as int));
}

/// Whether two texts are the same.
pub fn same_text(a: &str, b: &str) -> (r: bool)
    ensures
        r == (a@ == b@),
{
    a.to_owned() == b.to_owned()
}

/// Whether `text` begins with `prefix`.
pub fn starts_with(text: &str, prefix: &str) -> (r: bool)
    ensures
        r == prefix@.is_prefix_of(text@),
{
    let n: usize = prefix.unicode_len();
    if text.unicode_len() < n {
        false
    } else {
        same_text(text.substring_char(0, n), prefix)
    }
}

/// The character of a decimal digit.
pub open spec fn digit(d: nat) -> char {
    ('0' as nat + d) as char
}

/// The decimal notation of a natural number, without leading zeros.
pub open spec fn decimal(n: nat) -> Seq<char>
    decreases n,
{
    if n < 10 {
        seq![digit(n)]
    } else {
        decimal(n / 10).push(digit(n % 10))
    }
}

/// The decimal notation of an integer: that of its magnitude, after a minus sign if it is
/// negative.
pub open spec fn signed_decimal(i: int) -> Seq<char> {
    if i < 0 {
        seq!['-'] + decimal((-i) as nat)
    } else {
        decimal(i as nat)
    }
}

/// The number that a text of decimal digits stands for: each digit counts ten times as much as
/// the next.
pub open spec fn number_of(digits: Seq<char>) -> int
    decreases digits.len(),
{
    if digits.len() == 0 {
        0
    } else {
        10 * number_of(digits.drop_last()) + (digits.last() as int - '0' as int)
    }
}

/// The decimal notation of a number stands for that number. It consists of digits, and begins
/// with a zero only if it is that of zero.
pub proof fn law_decimal_stands_for_the_number(n: nat)
    ensures
        number_of(decimal(n)) == n,
        decimal(n).len() > 0,
        forall|i: int|
            0 <= i < decimal(n).len() ==> '0' as int <= (#[trigger] decimal(n)[i]) as int <= '9' as int,
        decimal(n)[0] == '0' ==> n == 0,
    decreases n,
{
    let text = decimal(n);
    if n < 10 {
        assert(text.drop_last() =~= Seq::<char>::empty());
        reveal_with_fuel(number_of, 2);
    } else {
        let shorter = decimal(n / 10);
        law_decimal_stands_for_the_number(n / 10);
        assert(text.drop_last() =~= shorter);
        assert(text[0] == shorter[0]);
        assert forall|i: int| 0 <= i < text.len() implies '0' as int <= (
        #[trigger] text[i]) as int <= '9' as int by {
            if i < shorter.len() {
                assert(text[i] == shorter[i]);
            }
        }
    }
}

/// The decimal notation of an integer is a minus sign and the notation of its magnitude if it is
/// negative, and otherwise has no sign; so different integers have different notations.
pub proof fn law_signed_decimal_stands_for_the_number(i: int)
    ensures
        i >= 0 ==> number_of(signed_decimal(i)) == i && signed_decimal(i)[0] != '-',
        i < 0 ==> signed_decimal(i)[0] == '-' && number_of(signed_decimal(i).skip(1)) == -i,
        signed_decimal(i).len() > 0,
        forall|k: int|
            0 <= k < signed_decimal(i).len() ==> {
                ||| '0' as int <= (#[trigger] signed_decimal(i)[k]) as int <= '9' as int
                ||| signed_decimal(i)[k] == '-'
            },
{
    if i < 0 {
        law_decimal_stands_for_the_number((-i) as nat);
        assert(signed_decimal(i).skip(1) =~= decimal((-i) as nat));
    } else {
        law_decimal_stands_for_the_number(i as nat);
    }
}

fn digit_text(d: u64) -> (r: &'static str)
    requires
        d < 10,
    ensures
        r@ == seq![digit(d as nat)],
{
    proof {
        reveal_strlit("0");
        reveal_strlit("1");
        reveal_strlit("2");
        reveal_strlit("3");
        reveal_strlit("4");
        reveal_strlit("5");
        reveal_strlit("6");
        reveal_strlit("7");
        reveal_strlit("8");
        reveal_strlit("9");
    }
    match d {
        0 => "0",
        1 => "1",
        2 => "2",
        3 => "3",
        4 => "4",
        5 => "5",
        6 => "6",
        7 => "7",
        8 => "8",
        _ => "9",
    }
}

/// The decimal notation of `n`.
pub fn decimal_text(n: u64) -> (r: String)
    ensures
        r@ == decimal(n as nat),
    decreases n,
{
    if n < 10 {
        digit_text(n).to_owned()
    } else {
        decimal_text(n / 10).concat(digit_text(n % 10))
    }
}

/// The decimal notation of `i`.
pub fn signed_decimal_text(i: i64) -> (r: String)
    ensures
        r@ == signed_decimal(i as int),
{
    if i < 0 {
        let magnitude: u64 = (-(i + 1)) as u64 + 1;
        proof {
            reveal_strlit("-");
            assert("-"@ =~= seq!['-']);
        }
        "-".to_owned().concat(decimal_text(magnitude).as_str())
    } else {
        decimal_text(i as u64)
    }
}

} // verus!
