//! Whole numbers as decimal text, in both directions.

use vstd::prelude::*;
use vstd::string::*;
use crate::text::chars_of;

verus! {

/// `c` is one of the ten decimal digits.
pub open spec fn is_digit(c: char) -> bool {
    '0' <= c && c <= '9'
}

/// The number that the digit `c` stands for.
pub open spec fn digit_value(c: char) -> int {
    c as int - '0' as int
}

/// The digit that stands for `d`, for `d` below ten.
pub open spec fn digit_char(d: int) -> char {
    seq!['0', '1', '2', '3', '4', '5', '6', '7', '8', '9'][d]
}

/// Every character of `s` is a digit.
pub open spec fn all_digits(s: Seq<char>) -> bool {
    forall|i: int| 0 <= i < s.len() ==> is_digit(#[trigger] s[i])
}

/// The number that a run of digits denotes; the empty run denotes zero.
pub open spec fn digits_value(s: Seq<char>) -> nat
    decreases s.len(),
{
    if s.len() == 0 {
        0
    } else {
        (10 * digits_value(s.drop_last()) + digit_value(s.last())) as nat
    }
}

/// The digits of `s` without its sign.
pub open spec fn magnitude_part(s: Seq<char>) -> Seq<char> {
    if s.len() > 0 && s[0] == '-' {
        s.skip(1)
    } else {
        s
    }
}

/// `s` is a whole number in decimal: an optional `-`, then at least one digit.
pub open spec fn is_integer_text(s: Seq<char>) -> bool {
    magnitude_part(s).len() > 0 && all_digits(magnitude_part(s))
}

/// The whole number that `s` denotes.
pub open spec fn integer_value(s: Seq<char>) -> int {
    if s.len() > 0 && s[0] == '-' {
        -(digits_value(s.skip(1)) as int)
    } else {
        digits_value(s) as int
    }
}

/// The 32-bit integer that `s` denotes, if it denotes one.
pub open spec fn integer_of_text(s: Seq<char>) -> Option<i32> {
    if is_integer_text(s) && i32::MIN <= integer_value(s) <= i32::MAX {
        Some(integer_value(s) as i32)
    } else {
        None
    }
}

/// The digits of `n`, most significant first, without leading zeros.
pub open spec fn digits_text(n: nat) -> Seq<char>
    decreases n,
{
    if n < 10 {
        seq![digit_char(n as int)]
    } else {
        digits_text(n / 10).push(digit_char((n % 10) as int))
    }
}

/// `n` in decimal: a `-` for a negative number, then its digits.
pub open spec fn decimal_text(n: int) -> Seq<char> {
    if n < 0 {
        seq!['-'] + digits_text((-n) as nat)
    } else {
        digits_text(n as nat)
    }
}

/// A run of digits denotes at least what any of its prefixes denotes.
pub proof fn lemma_digits_value_grows(s: Seq<char>, k: int)
    requires
        all_digits(s),
        0 <= k <= s.len(),
    ensures
        digits_value(s.take(k)) <= digits_value(s),
    decreases s.len() - k,
{
    if k == s.len() {
        assert(s.take(k) =~= s);
    } else {
        lemma_digits_value_grows(s, k + 1);
        let t = s.take(k + 1);
        assert(t.drop_last() =~= s.take(k));
        assert(is_digit(s[k]));
        assert(t.last() == s[k]);
    }
}

/// The digits of a number denote that number.
pub proof fn lemma_digits_round_trip(n: nat)
    ensures
        digits_text(n).len() > 0,
        all_digits(digits_text(n)),
        digits_value(digits_text(n)) == n,
        digits_text(n)[0] != '-',
    decreases n,
{
    if n < 10 {
        let t = digits_text(n);
        assert(t.drop_last() =~= Seq::<char>::empty());
        assert(digits_value(t.drop_last()) == 0);
    } else {
        lemma_digits_round_trip(n / 10);
        let t = digits_text(n);
        assert(t.drop_last() =~= digits_text(n / 10));
        assert(t[0] == digits_text(n / 10)[0]);
    }
}

/// Writing a whole number in decimal and reading the text back gives the
/// number again.
pub proof fn lemma_decimal_round_trip(n: int)
    ensures
        is_integer_text(decimal_text(n)),
        integer_value(decimal_text(n)) == n,
{
    if n < 0 {
        lemma_digits_round_trip((-n) as nat);
        let t = decimal_text(n);
        assert(t[0] == '-');
        assert(t.skip(1) =~= digits_text((-n) as nat));
    } else {
        lemma_digits_round_trip(n as nat);
    }
}

/// The one-character text of the digit for `d`.
fn digit_str(d: u32) -> (s: &'static str)
    requires
        d < 10,
    ensures
        s@ == seq![digit_char(d as int)],
{
    proof {
        reveal_strlit("0");
        reveal_strlit("1");
        reveal_strlit("2");
        reveal_strlit("3");
        reveal_strlit("4");
        reveal_strlit("5");
        reveal_strlit("6");
        reveal_strlit("7");
        reveal_strlit("8");
        reveal_strlit("9");
    }
    let s = if d == 0 {
        "0"
    } else if d == 1 {
        "1"
    } else if d == 2 {
        "2"
    } else if d == 3 {
        "3"
    } else if d == 4 {
        "4"
    } else if d == 5 {
        "5"
    } else if d == 6 {
        "6"
    } else if d == 7 {
        "7"
    } else if d == 8 {
        "8"
    } else {
        "9"
    };
    assert(s@ =~= seq![digit_char(d as int)]);
    s
}

/// Appends the digits of `n` to `out`.
pub fn push_digits(n: u64, out: &mut String)
    ensures
        final(out)@ == old(out)@ + digits_text(n as nat),
    decreases n,
{
    if n >= 10 {
        push_digits(n / 10, out);
    }
    out.append(digit_str((n % 10) as u32));
    assert(out@ =~= old(out)@ + digits_text(n as nat));
}

/// The decimal text of `n`: `-` before a negative number, no sign otherwise.
pub fn integer_text(n: i32) -> (s: String)
    ensures
        s@ == decimal_text(n as int),
{
    let mut s = String::new();
    if n < 0 {
        s.append("-");
        proof {
            reveal_strlit("-");
        }
        let magnitude: u64 = if n == i32::MIN {
            2147483648u64
        } else {
            (-n) as u64
        };
        push_digits(magnitude, &mut s);
        assert(s@ =~= decimal_text(n as int));
    } else {
        push_digits(n as u64, &mut s);
        assert(s@ =~= decimal_text(n as int));
    }
    s
}

/// Reads a whole number in decimal: an optional `-`, then digits. Text of
/// any other shape, and a number outside the 32-bit range, give `None`.
pub fn parse_integer(text: &str) -> (r: Option<i32>)
    ensures
        r == integer_of_text(text@),
{
    let chars = chars_of(text);
    let n = chars.len();
    let negative = n > 0 && chars[0] == '-';
    let start: usize = if negative { 1 } else { 0 };
    if start == n {
        return None;
    }
    let ghost body = magnitude_part(text@);
    assert(body =~= chars@.skip(start as int));
    let mut acc: i64 = 0;
    let mut i: usize = start;
    while i < n
        invariant
            start <= i <= n,
            n == chars@.len(),
            chars@ == text@,
            body == chars@.skip(start as int),
            body == magnitude_part(text@),
            negative == (text@.len() > 0 && text@[0] == '-'),
            all_digits(body.take(i - start)),
            acc == digits_value(body.take(i - start)),
            0 <= acc <= 2147483648,
        decreases n - i,
    {
        let c = chars[i];
        if !(c >= '0' && c <= '9') {
            assert(!is_digit(body[i - start]));
            assert(!is_integer_text(text@));
            return None;
        }
        let d: i64 = (c as u32 - '0' as u32) as i64;
        let next: i64 = acc * 10 + d;
        proof {
            let t = body.take(i + 1 - start);
            assert(t.drop_last() =~= body.take(i - start));
            assert(t.last() == c);
            assert(next == digits_value(t));
            assert forall|j: int| 0 <= j < t.len() implies is_digit(#[trigger] t[j]) by {
                if j < t.len() - 1 {
                    assert(t[j] == body.take(i - start)[j]);
                }
            }
        }
        if next > 2147483648 {
            proof {
                if all_digits(body) {
                    lemma_digits_value_grows(body, i + 1 - start);
                    assert(digits_value(body) > 2147483648);
                    assert(integer_value(text@) > 2147483648 || integer_value(text@) < -2147483648);
                }
            }
            return None;
        }
        acc = next;
        i = i + 1;
    }
    assert(body.take(n - start) =~= body);
    if negative {
        Some((-acc) as i32)
    } else if acc > 2147483647 {
        None
    } else {
        Some(acc as i32)
    }
}

} // verus!
