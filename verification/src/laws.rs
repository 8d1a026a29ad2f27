//! What holds of the grammar whatever the input: how much a reading takes,
//! that it depends on nothing behind its end, and what joining two
//! templates with `+` gives.

use vstd::prelude::*;
use crate::decimal::{is_digit, is_integer_text, magnitude_part};
use crate::grammar::{
    argument, argument_list, arguments, expression, in_class, is_name_start, item, lemma_run,
    lemma_run_is, literal, marker, name_len, number_len, run, starts_marker, template, CharClass,
};

verus! {

/// A number takes at least one character and no more than there are.
pub proof fn lemma_number_bounds(s: Seq<char>)
    ensures
        number_len(s) matches Some(n) ==> 1 <= n <= s.len(),
{
    let sign: int = if s.len() > 0 && s[0] == '-' {
        1
    } else {
        0
    };
    lemma_run(CharClass::Digit, s.skip(sign));
    let dot = sign + run(CharClass::Digit, s.skip(sign));
    if dot < s.len() {
        lemma_run(CharClass::Digit, s.skip(dot + 1));
    }
}

/// A literal takes at least one character and no more than there are.
pub proof fn lemma_literal_bounds(s: Seq<char>)
    ensures
        literal(s) matches Some((_, n)) ==> 1 <= n <= s.len(),
{
    if s.len() > 0 {
        if s[0] == '"' {
        } else if is_name_start(s[0]) {
            lemma_run(CharClass::Name, s);
        } else {
            lemma_number_bounds(s);
        }
    }
}

/// An expression takes at least one character and no more than there are.
pub proof fn lemma_expression_bounds(s: Seq<char>)
    ensures
        expression(s) matches Some((_, n)) ==> 1 <= n <= s.len(),
    decreases s.len(), 0int,
{
    if s.len() > 0 && is_name_start(s[0]) {
        lemma_run(CharClass::Name, s);
        let n = name_len(s);
        if n < s.len() && s[n as int] == '(' {
            lemma_arguments_bounds(s.skip(n + 1 as int));
        }
    } else {
        lemma_literal_bounds(s);
    }
}

/// A marker takes at least four characters and no more than there are.
pub proof fn lemma_marker_bounds(s: Seq<char>)
    ensures
        marker(s) matches Some((_, n)) ==> 4 <= n <= s.len(),
    decreases s.len(), 1int,
{
    if starts_marker(s) {
        lemma_expression_bounds(s.skip(2));
    }
}

/// An argument takes at least one character and no more than there are.
pub proof fn lemma_argument_bounds(s: Seq<char>)
    ensures
        argument(s) matches Some((_, n)) ==> 1 <= n <= s.len(),
    decreases s.len(), 2int,
{
    if starts_marker(s) {
        lemma_marker_bounds(s);
    } else {
        lemma_expression_bounds(s);
    }
}

/// A list of arguments takes at least two characters and no more than there
/// are, and ends with `)`.
pub proof fn lemma_argument_list_bounds(s: Seq<char>)
    ensures
        argument_list(s) matches Some((_, n)) ==> 2 <= n <= s.len() && s[n - 1] == ')',
    decreases s.len(), 3int,
{
    lemma_argument_bounds(s);
    match argument(s) {
        Some((_, n)) => {
            if n < s.len() && s[n as int] == ',' {
                let t = s.skip(n + 1 as int);
                lemma_argument_list_bounds(t);
                match argument_list(t) {
                    Some((_, m)) => {
                        assert(t[m - 1] == s[n + 1 + m - 1]);
                    },
                    None => {},
                }
            }
        },
        None => {},
    }
}

/// What follows the `(` of a call takes at least one character and no more
/// than there are, and ends with `)`.
pub proof fn lemma_arguments_bounds(s: Seq<char>)
    ensures
        arguments(s) matches Some((_, n)) ==> 1 <= n <= s.len() && s[n - 1] == ')',
    decreases s.len(), 4int,
{
    if s.len() > 0 && s[0] == ')' {
    } else {
        lemma_argument_list_bounds(s);
    }
}

/// An item takes at least one character and no more than there are.
pub proof fn lemma_item_bounds(s: Seq<char>)
    ensures
        item(s) matches Some((_, n)) ==> 1 <= n <= s.len(),
{
    if starts_marker(s) {
        lemma_marker_bounds(s);
    } else {
        lemma_literal_bounds(s);
    }
}

/// `s` and `t` hold the same first `n` characters.
pub open spec fn agree(s: Seq<char>, t: Seq<char>, n: int) -> bool {
    &&& 0 <= n <= s.len()
    &&& n <= t.len()
    &&& forall|i: int| 0 <= i < n ==> #[trigger] s[i] == t[i]
}

/// `c` ends an item, an argument or an expression.
pub open spec fn is_closing(c: char) -> bool {
    c == '+' || c == ',' || c == ')' || c == '}'
}

/// `t` ends at `n` or goes on there with a closing character.
pub open spec fn closes(t: Seq<char>, n: int) -> bool {
    n == t.len() || (0 <= n < t.len() && is_closing(t[n]))
}

/// Texts that agree still agree when the same number of characters is
/// dropped from both.
pub proof fn lemma_agree_skip(s: Seq<char>, t: Seq<char>, k: int, n: int)
    requires
        0 <= k,
        0 <= n,
        agree(s, t, k + n),
    ensures
        agree(s.skip(k), t.skip(k), n),
        s.take(k) == t.take(k),
{
    assert forall|i: int| 0 <= i < n implies #[trigger] s.skip(k)[i] == t.skip(k)[i] by {
        assert(s[k + i] == t[k + i]);
    }
    assert(s.take(k) =~= t.take(k));
}

/// A run is the same in a text that agrees with this one over the run and
/// then ends or goes on with a character that is not of the class.
pub proof fn lemma_run_agrees(class: CharClass, s: Seq<char>, t: Seq<char>)
    requires
        agree(s, t, run(class, s) as int),
        run(class, s) < t.len() ==> !in_class(class, t[run(class, s) as int]),
    ensures
        run(class, t) == run(class, s),
{
    lemma_run(class, s);
    let k = run(class, s) as int;
    assert forall|i: int| 0 <= i < k implies in_class(class, #[trigger] t[i]) by {
        assert(s[i] == t[i]);
    }
    lemma_run_is(class, t, k);
}

/// A number is the same in a text that agrees with this one over the number
/// and closes there.
pub proof fn lemma_number_agrees(s: Seq<char>, t: Seq<char>)
    requires
        number_len(s) matches Some(n) && agree(s, t, n as int) && closes(t, n as int),
    ensures
        number_len(t) == number_len(s),
{
    lemma_number_bounds(s);
    let n = number_len(s)->0 as int;
    let sign: int = if s.len() > 0 && s[0] == '-' {
        1
    } else {
        0
    };
    assert(s[0] == t[0]);
    let whole = run(CharClass::Digit, s.skip(sign)) as int;
    let dot = sign + whole;
    lemma_run(CharClass::Digit, s.skip(sign));
    lemma_agree_skip(s, t, sign, whole);
    if dot < t.len() {
        assert(t.skip(sign)[whole] == t[dot]);
        if dot < n {
            assert(s[dot] == t[dot]);
        }
    }
    lemma_run_agrees(CharClass::Digit, s.skip(sign), t.skip(sign));
    if dot < n {
        let fraction = run(CharClass::Digit, s.skip(dot + 1)) as int;
        lemma_run(CharClass::Digit, s.skip(dot + 1));
        lemma_agree_skip(s, t, dot + 1, fraction);
        if n < t.len() {
            assert(t.skip(dot + 1)[fraction] == t[n]);
        }
        lemma_run_agrees(CharClass::Digit, s.skip(dot + 1), t.skip(dot + 1));
    }
}

/// A literal is the same in a text that agrees with this one over the
/// literal and closes there.
pub proof fn lemma_literal_agrees(s: Seq<char>, t: Seq<char>)
    requires
        literal(s) matches Some((_, n)) && agree(s, t, n as int) && closes(t, n as int),
    ensures
        literal(t) == literal(s),
{
    lemma_literal_bounds(s);
    let n = literal(s).unwrap().1 as int;
    assert(s[0] == t[0]);
    if s[0] == '"' {
        let inner = run(CharClass::Unquoted, s.skip(1)) as int;
        lemma_run(CharClass::Unquoted, s.skip(1));
        lemma_agree_skip(s, t, 1, inner + 1);
        assert(s.skip(1)[inner] == t.skip(1)[inner]);
        lemma_run_agrees(CharClass::Unquoted, s.skip(1), t.skip(1));
        let x = s.subrange(1, inner + 1);
        let y = t.subrange(1, inner + 1);
        assert(x =~= y) by {
            assert forall|i: int| 0 <= i < inner implies #[trigger] x[i] == y[i] by {
                assert(s[i + 1] == t[i + 1]);
            }
        }
    } else if is_name_start(s[0]) {
        lemma_agree_skip(s, t, n, 0);
        lemma_run_agrees(CharClass::Name, s, t);
    } else {
        lemma_number_agrees(s, t);
        lemma_agree_skip(s, t, n, 0);
    }
}

/// `text` is a number of the grammar, from its first character to its last.
pub open spec fn is_number_literal(text: Seq<char>) -> bool {
    number_len(text) == Some(text.len())
}

/// The text of a number that the grammar reads is a number of the grammar.
pub proof fn lemma_number_read_is_literal(s: Seq<char>)
    requires
        number_len(s) is Some,
    ensures
        is_number_literal(s.take(number_len(s)->0 as int)),
{
    lemma_number_bounds(s);
    let n = number_len(s)->0 as int;
    let t = s.take(n);
    assert(agree(s, t, n));
    lemma_number_agrees(s, t);
}

/// A number of the grammar without a `.` is a whole number in decimal.
pub proof fn lemma_pointless_number_is_integer(text: Seq<char>)
    requires
        is_number_literal(text),
        !text.contains('.'),
    ensures
        is_integer_text(text),
{
    let sign: int = if text.len() > 0 && text[0] == '-' {
        1
    } else {
        0
    };
    let body = text.skip(sign);
    lemma_run(CharClass::Digit, body);
    let whole = run(CharClass::Digit, body) as int;
    let dot = sign + whole;
    if dot < text.len() {
        if text[dot] == '.' {
            assert(text.contains('.'));
        }
    }
    assert(body =~= magnitude_part(text));
    assert forall|i: int| 0 <= i < body.len() implies is_digit(#[trigger] body[i]) by {
        assert(in_class(CharClass::Digit, body[i]));
    }
}

/// An expression is the same in a text that agrees with this one over the
/// expression and closes there.
pub proof fn lemma_expression_agrees(s: Seq<char>, t: Seq<char>)
    requires
        expression(s) matches Some((_, n)) && agree(s, t, n as int) && closes(t, n as int),
    ensures
        expression(t) == expression(s),
    decreases s.len(), 0int,
{
    lemma_expression_bounds(s);
    let n = expression(s).unwrap().1 as int;
    assert(s[0] == t[0]);
    if is_name_start(s[0]) {
        let k = name_len(s) as int;
        lemma_run(CharClass::Name, s);
        if k < s.len() && s[k] == '(' {
            lemma_arguments_bounds(s.skip(k + 1));
            let m = arguments(s.skip(k + 1)).unwrap().1 as int;
            assert(s[k] == t[k]);
            lemma_agree_skip(s, t, k, 0);
            lemma_run_agrees(CharClass::Name, s, t);
            lemma_agree_skip(s, t, k + 1, m);
            lemma_arguments_agrees(s.skip(k + 1), t.skip(k + 1));
        } else {
            lemma_agree_skip(s, t, k, 0);
            lemma_run_agrees(CharClass::Name, s, t);
        }
    } else {
        lemma_literal_agrees(s, t);
    }
}

/// A marker is the same in a text that agrees with this one over the
/// marker.
pub proof fn lemma_marker_agrees(s: Seq<char>, t: Seq<char>)
    requires
        marker(s) matches Some((_, n)) && agree(s, t, n as int),
    ensures
        marker(t) == marker(s),
    decreases s.len(), 1int,
{
    lemma_marker_bounds(s);
    let n = marker(s).unwrap().1 as int;
    assert(s[0] == t[0]);
    assert(s[1] == t[1]);
    assert(s[n - 1] == t[n - 1]);
    lemma_agree_skip(s, t, 2, n - 3);
    assert(t.skip(2)[n - 3] == t[n - 1]);
    lemma_expression_agrees(s.skip(2), t.skip(2));
}

/// An argument is the same in a text that agrees with this one over the
/// argument and closes there.
pub proof fn lemma_argument_agrees(s: Seq<char>, t: Seq<char>)
    requires
        argument(s) matches Some((_, n)) && agree(s, t, n as int) && closes(t, n as int),
    ensures
        argument(t) == argument(s),
    decreases s.len(), 2int,
{
    lemma_argument_bounds(s);
    assert(s[0] == t[0]);
    if starts_marker(s) {
        lemma_marker_bounds(s);
        assert(s[1] == t[1]);
        lemma_marker_agrees(s, t);
    } else {
        lemma_expression_agrees(s, t);
    }
}

/// A list of arguments is the same in a text that agrees with this one over
/// the list.
pub proof fn lemma_argument_list_agrees(s: Seq<char>, t: Seq<char>)
    requires
        argument_list(s) matches Some((_, n)) && agree(s, t, n as int),
    ensures
        argument_list(t) == argument_list(s),
    decreases s.len(), 3int,
{
    lemma_argument_list_bounds(s);
    lemma_argument_bounds(s);
    let n = argument_list(s).unwrap().1 as int;
    let k = argument(s).unwrap().1 as int;
    assert(s[k] == t[k]);
    lemma_argument_agrees(s, t);
    if s[k] == ',' {
        lemma_argument_list_bounds(s.skip(k + 1));
        lemma_agree_skip(s, t, k + 1, n - k - 1);
        lemma_argument_list_agrees(s.skip(k + 1), t.skip(k + 1));
    }
}

/// What follows the `(` of a call is the same in a text that agrees with
/// this one over it.
pub proof fn lemma_arguments_agrees(s: Seq<char>, t: Seq<char>)
    requires
        arguments(s) matches Some((_, n)) && agree(s, t, n as int),
    ensures
        arguments(t) == arguments(s),
    decreases s.len(), 4int,
{
    lemma_arguments_bounds(s);
    assert(s[0] == t[0]);
    if s[0] == ')' {
    } else {
        lemma_argument_list_agrees(s, t);
    }
}

/// An item is the same in a text that agrees with this one over the item
/// and closes there.
pub proof fn lemma_item_agrees(s: Seq<char>, t: Seq<char>)
    requires
        item(s) matches Some((_, n)) && agree(s, t, n as int) && closes(t, n as int),
    ensures
        item(t) == item(s),
{
    lemma_item_bounds(s);
    assert(s[0] == t[0]);
    if starts_marker(s) {
        lemma_marker_bounds(s);
        assert(s[1] == t[1]);
        lemma_marker_agrees(s, t);
    } else {
        lemma_literal_agrees(s, t);
    }
}

/// Two templates joined by `+` are a template, and its items are those of
/// the first followed by those of the second.
pub proof fn lemma_template_joined(a: Seq<char>, b: Seq<char>)
    requires
        template(a) is Some,
        template(b) is Some,
    ensures
        template(a + seq!['+'] + b) == Some(template(a)->0 + template(b)->0),
    decreases a.len(),
{
    let t = a + seq!['+'] + b;
    lemma_item_bounds(a);
    let first = item(a).unwrap().0;
    let n = item(a).unwrap().1 as int;
    assert(agree(a, t, n));
    assert(t[a.len() as int] == '+');
    lemma_item_agrees(a, t);
    if n == a.len() {
        assert(t.skip(n + 1) =~= b);
    } else {
        let rest = a.skip(n + 1);
        assert(t[n] == a[n]);
        lemma_template_joined(rest, b);
        assert(t.skip(n + 1) =~= rest + seq!['+'] + b);
        assert(seq![first] + (template(rest)->0 + template(b)->0) =~= (seq![first] + template(
            rest,
        )->0) + template(b)->0);
    }
}

} // verus!
