//! The grammar of templates, and the parser for it.
//!
//! A template is one or more items joined by `+`. An item is a marker
//! `${...}` or a literal. A marker holds an expression: a literal, the name of
//! a variable, or a name with arguments in brackets, which calls a function.
//! An argument is a marker or an expression. A literal is a number such as
//! `-2.5`, the word `true` or `false`, or text between double quotes. No
//! blanks stand between these parts.

use vstd::prelude::*;
use vstd::string::*;
use crate::decimal::{digits_text, is_digit, push_digits};
use crate::error::{Error, ErrorKind};
use crate::text::{chars_of, same_text, text_of};

verus! {

/// An expression of a template, as the parser has read it.
pub enum Expr {
    /// A reference to the variable of this name.
    Variable(Seq<char>),
    /// A call of the function of this name with these arguments.
    Call(Seq<char>, Seq<Expr>),
    /// A number literal, by its text.
    Number(Seq<char>),
    /// The word `true` or `false`, by its text.
    Boolean(Seq<char>),
    /// A string literal, by the text between the quotes.
    Text(Seq<char>),
}

/// A class of characters that a token is made of.
#[derive(Clone, Copy)]
pub enum CharClass {
    /// The ten digits.
    Digit,
    /// What a name may hold after its first character.
    Name,
    /// Anything but a double quote.
    Unquoted,
}

/// `c` may start a name: an unaccented Latin letter or `_`.
pub open spec fn is_name_start(c: char) -> bool {
    ('a' <= c && c <= 'z') || ('A' <= c && c <= 'Z') || c == '_'
}

/// `c` belongs to `class`.
pub open spec fn in_class(class: CharClass, c: char) -> bool {
    match class {
        CharClass::Digit => is_digit(c),
        CharClass::Name => is_name_start(c) || is_digit(c),
        CharClass::Unquoted => c != '"',
    }
}

/// How many characters at the start of `s` belong to `class`, counted up to
/// the first one that does not.
pub open spec fn run(class: CharClass, s: Seq<char>) -> nat
    decreases s.len(),
{
    if s.len() > 0 && in_class(class, s[0]) {
        1 + run(class, s.skip(1))
    } else {
        0
    }
}

/// The length of the name at the start of `s`; zero where none starts there.
pub open spec fn name_len(s: Seq<char>) -> nat {
    if s.len() > 0 && is_name_start(s[0]) {
        run(CharClass::Name, s)
    } else {
        0
    }
}

/// The length of the number at the start of `s`: an optional `-`, digits,
/// and, where a `.` and a digit follow, the `.` and the digits after it.
pub open spec fn number_len(s: Seq<char>) -> Option<nat> {
    let sign: nat = if s.len() > 0 && s[0] == '-' {
        1
    } else {
        0
    };
    let whole = run(CharClass::Digit, s.skip(sign as int));
    let dot = sign + whole;
    let fraction = run(CharClass::Digit, s.skip(dot + 1 as int));
    if whole == 0 {
        None
    } else if dot < s.len() && s[dot as int] == '.' && fraction > 0 {
        Some(dot + 1 + fraction)
    } else {
        Some(dot)
    }
}

/// `w` is the word `true` or the word `false`.
pub open spec fn is_boolean_word(w: Seq<char>) -> bool {
    w == seq!['t', 'r', 'u', 'e'] || w == seq!['f', 'a', 'l', 's', 'e']
}

/// The literal at the start of `s` and its length.
pub open spec fn literal(s: Seq<char>) -> Option<(Expr, nat)> {
    if s.len() == 0 {
        None
    } else if s[0] == '"' {
        let inner = run(CharClass::Unquoted, s.skip(1));
        if inner + 1 < s.len() {
            Some((Expr::Text(s.subrange(1, inner + 1 as int)), inner + 2))
        } else {
            None
        }
    } else if is_name_start(s[0]) {
        let n = name_len(s);
        if is_boolean_word(s.take(n as int)) {
            Some((Expr::Boolean(s.take(n as int)), n))
        } else {
            None
        }
    } else {
        match number_len(s) {
            Some(n) => Some((Expr::Number(s.take(n as int)), n)),
            None => None,
        }
    }
}

/// `s` starts with `${`.
pub open spec fn starts_marker(s: Seq<char>) -> bool {
    s.len() >= 2 && s[0] == '$' && s[1] == '{'
}

/// The expression at the start of `s` and its length.
pub open spec fn expression(s: Seq<char>) -> Option<(Expr, nat)>
    decreases s.len(), 0int,
{
    if s.len() > 0 && is_name_start(s[0]) {
        let n = name_len(s);
        if n < s.len() && s[n as int] == '(' {
            match arguments(s.skip(n + 1 as int)) {
                Some((args, m)) => Some((Expr::Call(s.take(n as int), args), n + 1 + m)),
                None => None,
            }
        } else if is_boolean_word(s.take(n as int)) {
            Some((Expr::Boolean(s.take(n as int)), n))
        } else {
            Some((Expr::Variable(s.take(n as int)), n))
        }
    } else {
        literal(s)
    }
}

/// The marker at the start of `s`: `${`, an expression, `}`.
pub open spec fn marker(s: Seq<char>) -> Option<(Expr, nat)>
    decreases s.len(), 1int,
{
    if starts_marker(s) {
        match expression(s.skip(2)) {
            Some((e, n)) => if n + 2 < s.len() && s[n + 2 as int] == '}' {
                Some((e, n + 3))
            } else {
                None
            },
            None => None,
        }
    } else {
        None
    }
}

/// The argument at the start of `s`: a marker or an expression.
pub open spec fn argument(s: Seq<char>) -> Option<(Expr, nat)>
    decreases s.len(), 2int,
{
    if starts_marker(s) {
        marker(s)
    } else {
        expression(s)
    }
}

/// One or more arguments at the start of `s`, with a `,` between them and a
/// `)` after the last, and the length of it all.
pub open spec fn argument_list(s: Seq<char>) -> Option<(Seq<Expr>, nat)>
    decreases s.len(), 3int,
{
    match argument(s) {
        Some((first, n)) => if n < s.len() && s[n as int] == ')' {
            Some((seq![first], n + 1))
        } else if n < s.len() && s[n as int] == ',' {
            match argument_list(s.skip(n + 1 as int)) {
                Some((rest, m)) => Some((seq![first] + rest, n + 1 + m)),
                None => None,
            }
        } else {
            None
        },
        None => None,
    }
}

/// What follows the `(` of a call: `)` at once, or a list of arguments.
pub open spec fn arguments(s: Seq<char>) -> Option<(Seq<Expr>, nat)>
    decreases s.len(), 4int,
{
    if s.len() > 0 && s[0] == ')' {
        Some((Seq::empty(), 1))
    } else {
        argument_list(s)
    }
}

/// The item at the start of `s`: a marker or a literal.
pub open spec fn item(s: Seq<char>) -> Option<(Expr, nat)> {
    if starts_marker(s) {
        marker(s)
    } else {
        literal(s)
    }
}

/// The items that `s` consists of: one or more, joined by `+`, with nothing
/// before, between or after them.
pub open spec fn template(s: Seq<char>) -> Option<Seq<Expr>>
    decreases s.len(),
{
    match item(s) {
        Some((first, n)) => if n == s.len() {
            Some(seq![first])
        } else if n < s.len() && s[n as int] == '+' {
            match template(s.skip(n + 1 as int)) {
                Some(rest) => Some(seq![first] + rest),
                None => None,
            }
        } else {
            None
        },
        None => None,
    }
}

/// An expression of a template, as the parser hands it on.
#[derive(Debug)]
pub enum Node {
    /// A reference to the variable of this name.
    Variable(String),
    /// A call of the function of this name with these arguments.
    Call(String, Vec<Node>),
    /// A number literal, by its text.
    Number(String),
    /// The word `true` or `false`, by its text.
    Boolean(String),
    /// A string literal, by the text between the quotes.
    Text(String),
}

impl View for Node {
    type V = Expr;

    open spec fn view(&self) -> Expr
        decreases self,
    {
        match self {
            Node::Variable(name) => Expr::Variable(name@),
            Node::Call(name, args) => Expr::Call(name@, views(args@)),
            Node::Number(text) => Expr::Number(text@),
            Node::Boolean(text) => Expr::Boolean(text@),
            Node::Text(text) => Expr::Text(text@),
        }
    }
}

/// The expressions that `nodes` stand for.
pub open spec fn views(nodes: Seq<Node>) -> Seq<Expr>
    decreases nodes,
{
    if nodes.len() == 0 {
        Seq::empty()
    } else {
        views(nodes.drop_last()).push(nodes.last()@)
    }
}

/// [`views`] keeps the length and takes the view place by place.
pub proof fn lemma_views(nodes: Seq<Node>)
    ensures
        views(nodes).len() == nodes.len(),
        forall|i: int| 0 <= i < nodes.len() ==> #[trigger] views(nodes)[i] == nodes[i]@,
    decreases nodes.len(),
{
    if nodes.len() > 0 {
        lemma_views(nodes.drop_last());
        assert(views(nodes) == views(nodes.drop_last()).push(nodes.last()@));
    } else {
        assert(views(nodes) == Seq::<Expr>::empty());
    }
}

/// A run stays inside the text, holds only characters of its class, and
/// ends where the text ends or before a character that is not of the class.
pub proof fn lemma_run(class: CharClass, s: Seq<char>)
    ensures
        run(class, s) <= s.len(),
        forall|i: int| 0 <= i < run(class, s) ==> in_class(class, #[trigger] s[i]),
        run(class, s) < s.len() ==> !in_class(class, s[run(class, s) as int]),
    decreases s.len(),
{
    if s.len() > 0 && in_class(class, s[0]) {
        let t = s.skip(1);
        lemma_run(class, t);
        assert forall|i: int| 0 <= i < run(class, s) implies in_class(class, #[trigger] s[i]) by {
            if i > 0 {
                assert(s[i] == t[i - 1]);
            }
        }
        if run(class, s) < s.len() {
            assert(s[run(class, s) as int] == t[run(class, t) as int]);
        }
    }
}

/// The run is the only length with the properties that [`lemma_run`] names.
pub proof fn lemma_run_is(class: CharClass, s: Seq<char>, k: int)
    requires
        0 <= k <= s.len(),
        forall|i: int| 0 <= i < k ==> in_class(class, #[trigger] s[i]),
        k < s.len() ==> !in_class(class, s[k]),
    ensures
        run(class, s) == k,
    decreases k,
{
    if k > 0 {
        let t = s.skip(1);
        assert(in_class(class, s[0]));
        assert forall|i: int| 0 <= i < k - 1 implies in_class(class, #[trigger] t[i]) by {
            assert(t[i] == s[i + 1]);
        }
        if k - 1 < t.len() {
            assert(t[k - 1] == s[k]);
        }
        lemma_run_is(class, t, k - 1);
    }
}

/// Whether `c` belongs to `class`.
fn is_in_class(class: CharClass, c: char) -> (yes: bool)
    ensures
        yes == in_class(class, c),
{
    match class {
        CharClass::Digit => '0' <= c && c <= '9',
        CharClass::Name => ('a' <= c && c <= 'z') || ('A' <= c && c <= 'Z') || c == '_' || ('0'
            <= c && c <= '9'),
        CharClass::Unquoted => c != '"',
    }
}

/// The place where the run of `class` that starts at `from` ends.
fn scan(chars: &Vec<char>, from: usize, class: CharClass) -> (to: usize)
    requires
        from <= chars@.len(),
    ensures
        from <= to <= chars@.len(),
        to - from == run(class, chars@.skip(from as int)),
{
    let mut to: usize = from;
    while to < chars.len() && is_in_class(class, chars[to])
        invariant
            from <= to <= chars@.len(),
            forall|i: int| from <= i < to ==> in_class(class, #[trigger] chars@[i]),
        decreases chars@.len() - to,
    {
        to = to + 1;
    }
    proof {
        let s = chars@.skip(from as int);
        assert forall|i: int| 0 <= i < to - from implies in_class(class, #[trigger] s[i]) by {
            assert(s[i] == chars@[from + i]);
        }
        lemma_run_is(class, s, to - from);
    }
    to
}

/// `r` is what the grammar reads at the place `at` of a text of `len`
/// characters, where `read` is what it reads from there on: the same
/// expression, and the place where it ends.
spec fn reads(r: Option<(Node, usize)>, read: Option<(Expr, nat)>, at: usize, len: nat) -> bool {
    match read {
        Some((e, n)) => r matches Some((node, end)) && node@ == e && end == at + n && end <= len,
        None => r is None,
    }
}

/// The same for a list of expressions.
spec fn reads_list(
    r: Option<(Vec<Node>, usize)>,
    read: Option<(Seq<Expr>, nat)>,
    at: usize,
    len: nat,
) -> bool {
    match read {
        Some((es, n)) => r matches Some((nodes, end)) && views(nodes@) == es && end == at + n
            && end <= len,
        None => r is None,
    }
}

/// Whether `c` may start a name.
fn starts_name(c: char) -> (yes: bool)
    ensures
        yes == is_name_start(c),
{
    ('a' <= c && c <= 'z') || ('A' <= c && c <= 'Z') || c == '_'
}

/// Whether `word` is `true` or `false`.
fn is_boolean(word: &String) -> (yes: bool)
    ensures
        yes == is_boolean_word(word@),
{
    proof {
        reveal_strlit("true");
        reveal_strlit("false");
        assert("true"@ =~= seq!['t', 'r', 'u', 'e']);
        assert("false"@ =~= seq!['f', 'a', 'l', 's', 'e']);
    }
    same_text(word.as_str(), "true") || same_text(word.as_str(), "false")
}

/// The place where the number that starts at `at` ends.
fn number_end(chars: &Vec<char>, at: usize) -> (r: Option<usize>)
    requires
        at <= chars@.len(),
    ensures
        match number_len(chars@.skip(at as int)) {
            Some(n) => r == Some((at + n) as usize) && at + n <= chars@.len(),
            None => r is None,
        },
{
    let n = chars.len();
    let ghost s = chars@.skip(at as int);
    let sign: usize = if at < n && chars[at] == '-' {
        1
    } else {
        0
    };
    let dot = scan(chars, at + sign, CharClass::Digit);
    assert(s.skip(sign as int) =~= chars@.skip(at + sign));
    if dot == at + sign {
        return None;
    }
    if dot < n && chars[dot] == '.' {
        assert(s.skip(dot - at + 1) =~= chars@.skip(dot + 1));
        let end = scan(chars, dot + 1, CharClass::Digit);
        if end > dot + 1 {
            return Some(end);
        }
    }
    Some(dot)
}

/// Reads the literal that starts at `at`.
fn parse_literal(chars: &Vec<char>, at: usize) -> (r: Option<(Node, usize)>)
    requires
        at <= chars@.len(),
    ensures
        reads(r, literal(chars@.skip(at as int)), at, chars@.len()),
{
    let n = chars.len();
    let ghost s = chars@.skip(at as int);
    if at >= n {
        return None;
    }
    let c = chars[at];
    if c == '"' {
        let close = scan(chars, at + 1, CharClass::Unquoted);
        assert(s.skip(1) =~= chars@.skip(at + 1));
        if close < n {
            let text = text_of(chars, at + 1, close);
            assert(s.subrange(1, close - at) =~= chars@.subrange(at + 1, close as int));
            Some((Node::Text(text), close + 1))
        } else {
            None
        }
    } else if starts_name(c) {
        let end = scan(chars, at, CharClass::Name);
        let word = text_of(chars, at, end);
        assert(s.take(end - at) =~= chars@.subrange(at as int, end as int));
        if is_boolean(&word) {
            Some((Node::Boolean(word), end))
        } else {
            None
        }
    } else {
        match number_end(chars, at) {
            Some(end) => {
                let text = text_of(chars, at, end);
                assert(s.take(end - at) =~= chars@.subrange(at as int, end as int));
                Some((Node::Number(text), end))
            },
            None => None,
        }
    }
}

/// Reads the expression that starts at `at`.
fn parse_expression(chars: &Vec<char>, at: usize) -> (r: Option<(Node, usize)>)
    requires
        at <= chars@.len(),
    ensures
        reads(r, expression(chars@.skip(at as int)), at, chars@.len()),
    decreases chars@.len() - at, 0int,
{
    let n = chars.len();
    let ghost s = chars@.skip(at as int);
    if at < n && starts_name(chars[at]) {
        let end = scan(chars, at, CharClass::Name);
        let name = text_of(chars, at, end);
        assert(s.take(end - at) =~= chars@.subrange(at as int, end as int));
        if end < n && chars[end] == '(' {
            assert(s.skip(end - at + 1) =~= chars@.skip(end + 1));
            match parse_arguments(chars, end + 1) {
                Some((args, after)) => Some((Node::Call(name, args), after)),
                None => None,
            }
        } else if is_boolean(&name) {
            Some((Node::Boolean(name), end))
        } else {
            Some((Node::Variable(name), end))
        }
    } else {
        parse_literal(chars, at)
    }
}

/// Whether a marker starts at `at`.
fn marker_starts(chars: &Vec<char>, at: usize) -> (yes: bool)
    requires
        at <= chars@.len(),
    ensures
        yes == starts_marker(chars@.skip(at as int)),
{
    chars.len() - at >= 2 && chars[at] == '$' && chars[at + 1] == '{'
}

/// Reads the marker that starts at `at`.
fn parse_marker(chars: &Vec<char>, at: usize) -> (r: Option<(Node, usize)>)
    requires
        at <= chars@.len(),
    ensures
        reads(r, marker(chars@.skip(at as int)), at, chars@.len()),
    decreases chars@.len() - at, 1int,
{
    let n = chars.len();
    let ghost s = chars@.skip(at as int);
    if marker_starts(chars, at) {
        assert(s.skip(2) =~= chars@.skip(at + 2));
        match parse_expression(chars, at + 2) {
            Some((node, end)) => {
                if end < n && chars[end] == '}' {
                    Some((node, end + 1))
                } else {
                    None
                }
            },
            None => None,
        }
    } else {
        None
    }
}

/// Reads the argument that starts at `at`.
fn parse_argument(chars: &Vec<char>, at: usize) -> (r: Option<(Node, usize)>)
    requires
        at <= chars@.len(),
    ensures
        reads(r, argument(chars@.skip(at as int)), at, chars@.len()),
    decreases chars@.len() - at, 2int,
{
    if marker_starts(chars, at) {
        parse_marker(chars, at)
    } else {
        parse_expression(chars, at)
    }
}

/// What is read in all when `before` was read over `k` characters and
/// `rest` is read behind them.
spec fn read_on(before: Seq<Expr>, k: int, rest: Option<(Seq<Expr>, nat)>) -> Option<
    (Seq<Expr>, nat),
> {
    match rest {
        Some((es, n)) => Some((before + es, (k + n) as nat)),
        None => None,
    }
}

/// Reads what follows the `(` of a call, from `at` on.
fn parse_arguments(chars: &Vec<char>, at: usize) -> (r: Option<(Vec<Node>, usize)>)
    requires
        at <= chars@.len(),
    ensures
        reads_list(r, arguments(chars@.skip(at as int)), at, chars@.len()),
    decreases chars@.len() - at, 4int,
{
    let n = chars.len();
    let mut args: Vec<Node> = Vec::new();
    if at < n && chars[at] == ')' {
        return Some((args, at + 1));
    }
    let ghost whole = arguments(chars@.skip(at as int));
    let mut pos: usize = at;
    proof {
        match whole {
            Some((es, m)) => {
                assert(Seq::<Expr>::empty() + es =~= es);
            },
            None => {},
        }
    }
    loop
        invariant
            n == chars@.len(),
            at <= pos <= n,
            whole == arguments(chars@.skip(at as int)),
            whole == read_on(views(args@), pos - at, argument_list(chars@.skip(pos as int))),
        decreases n - pos,
    {
        let ghost s = chars@.skip(pos as int);
        let ghost before = views(args@);
        match parse_argument(chars, pos) {
            None => {
                return None;
            },
            Some((node, end)) => {
                if end < n && chars[end] == ')' {
                    let ghost earlier = args@;
                    args.push(node);
                    proof {
                        assert(args@.drop_last() =~= earlier);
                        assert(views(args@) =~= before + seq![node@]);
                    }
                    return Some((args, end + 1));
                } else if end < n && chars[end] == ',' {
                    let ghost earlier = args@;
                    args.push(node);
                    proof {
                        assert(args@.drop_last() =~= earlier);
                        assert(views(args@) =~= before + seq![node@]);
                        assert(s.skip(end - pos + 1) =~= chars@.skip(end + 1));
                        match argument_list(chars@.skip(end + 1)) {
                            Some((es, m)) => {
                                assert(before + (seq![node@] + es) =~= views(args@) + es);
                            },
                            None => {},
                        }
                    }
                    pos = end + 1;
                } else {
                    return None;
                }
            },
        }
    }
}

/// Reads the item that starts at `at`.
fn parse_item(chars: &Vec<char>, at: usize) -> (r: Option<(Node, usize)>)
    requires
        at <= chars@.len(),
    ensures
        reads(r, item(chars@.skip(at as int)), at, chars@.len()),
{
    if marker_starts(chars, at) {
        parse_marker(chars, at)
    } else {
        parse_literal(chars, at)
    }
}

/// The items of a template when `before` are those read so far and `rest`
/// those of what is left.
spec fn items_on(before: Seq<Expr>, rest: Option<Seq<Expr>>) -> Option<Seq<Expr>> {
    match rest {
        Some(es) => Some(before + es),
        None => None,
    }
}

/// The message that says `what` the parser missed and the place `at` where
/// it missed it, counted in characters from zero: `what`, then
/// ` at character `, then `at` in decimal.
pub open spec fn missed(what: Seq<char>, at: nat) -> Seq<char> {
    what + " at character "@ + digits_text(at)
}

/// The message of the failure to read `s`, which starts at the place `at` of
/// the input, as a template: at the first item that cannot be read, that no
/// marker or literal can be read from its place on; behind an item that is
/// followed by something else than `+`, that `+` or the end is expected
/// there.
pub open spec fn syntax_message(s: Seq<char>, at: nat) -> Seq<char>
    decreases s.len(),
{
    match item(s) {
        None => missed("no marker or literal can be read from the input"@, at),
        Some((_, n)) => if n < s.len() && s[n as int] == '+' {
            syntax_message(s.skip(n + 1 as int), at + n + 1)
        } else {
            missed("`+` or the end of the input is expected"@, at + n)
        },
    }
}

/// The failure that the parser reports: `what` it missed, and the place
/// `at` where it missed it.
fn syntax_error(what: &str, at: usize) -> (e: Error)
    ensures
        e.kind == ErrorKind::SyntaxError,
        e.message@ == missed(what@, at as nat),
{
    let mut message = what.to_owned();
    message.append(" at character ");
    push_digits(at as u64, &mut message);
    Error::with_kind(ErrorKind::SyntaxError, message)
}

/// Reads `input` as a template.
///
/// The whole input has to be a template: where any part of it is not, the
/// call fails as `SyntaxError` and hands no item out. The message of the
/// failure says what was missed, and at which character.
pub fn parse_template(input: &str) -> (r: Result<Vec<Node>, Error>)
    ensures
        match template(input@) {
            Some(items) => r matches Ok(nodes) && views(nodes@) == items,
            None => r matches Err(e) && e.kind == ErrorKind::SyntaxError && e.message@
                == syntax_message(input@, 0),
        },
{
    let chars = chars_of(input);
    let n = chars.len();
    let mut nodes: Vec<Node> = Vec::new();
    let mut pos: usize = 0;
    proof {
        assert(chars@.skip(0) =~= input@);
        match template(input@) {
            Some(es) => {
                assert(Seq::<Expr>::empty() + es =~= es);
            },
            None => {},
        }
    }
    loop
        invariant
            n == chars@.len(),
            pos <= n,
            template(input@) == items_on(views(nodes@), template(chars@.skip(pos as int))),
            syntax_message(input@, 0) == syntax_message(chars@.skip(pos as int), pos as nat),
        decreases n - pos,
    {
        let ghost s = chars@.skip(pos as int);
        let ghost before = views(nodes@);
        match parse_item(&chars, pos) {
            None => {
                return Err(syntax_error("no marker or literal can be read from the input", pos));
            },
            Some((node, end)) => {
                let ghost earlier = nodes@;
                if end == n {
                    nodes.push(node);
                    proof {
                        assert(nodes@.drop_last() =~= earlier);
                        assert(views(nodes@) =~= before + seq![node@]);
                    }
                    return Ok(nodes);
                } else if chars[end] == '+' {
                    nodes.push(node);
                    proof {
                        assert(nodes@.drop_last() =~= earlier);
                        assert(views(nodes@) =~= before + seq![node@]);
                        assert(s.skip(end - pos + 1) =~= chars@.skip(end + 1));
                        match template(chars@.skip(end + 1)) {
                            Some(es) => {
                                assert(before + (seq![node@] + es) =~= views(nodes@) + es);
                            },
                            None => {},
                        }
                    }
                    pos = end + 1;
                } else {
                    return Err(syntax_error("`+` or the end of the input is expected", end));
                }
            },
        }
    }
}

} // verus!
