//! Evaluation: from a template and a registry to values, and to the text
//! that they render to.

use vstd::prelude::*;
use vstd::string::*;
use crate::cache::{fails_as, yields, Cache, ExpType, Value};
use crate::decimal::{integer_of_text, integer_value, parse_integer};
use crate::error::{Error, ErrorKind};
use crate::grammar::{
    lemma_views, parse_template, syntax_message, template, views, Expr, Node,
};
use crate::laws::{is_number_literal, lemma_pointless_number_is_integer, lemma_template_joined};
use crate::text::{chars_of, same_text};

verus! {

/// What a number literal denotes: a float where its text holds a `.`, else
/// the 32-bit integer that the text denotes, if it denotes one.
pub open spec fn number_value(text: Seq<char>) -> Option<Value> {
    if text.contains('.') {
        Some(Value::Float(text))
    } else {
        match integer_of_text(text) {
            Some(n) => Some(Value::Integer(n as int)),
            None => None,
        }
    }
}

/// What a boolean literal denotes.
pub open spec fn boolean_value(text: Seq<char>) -> Option<Value> {
    if text == seq!['t', 'r', 'u', 'e'] {
        Some(Value::Boolean(true))
    } else if text == seq!['f', 'a', 'l', 's', 'e'] {
        Some(Value::Boolean(false))
    } else {
        None
    }
}

/// `r` is what a literal evaluates to that denotes `value`: that value, or
/// a failure of kind `LiteralParseError` where it denotes none.
pub open spec fn literal_result(value: Option<Value>, r: Result<ExpType, Error>) -> bool {
    match value {
        Some(v) => yields(r, v),
        None => fails_as(r, ErrorKind::LiteralParseError),
    }
}

/// Whether the expression `e` may evaluate to `r` against `cache`.
///
/// A variable gives the value of the first entry of its name, or fails as
/// `VariableNotFound`. A literal gives what it denotes. A call evaluates its
/// arguments from left to right, which gives `params`, the values of those
/// that were evaluated with success: where all were, the result is one that
/// the registry's call may return for them; else the result is the failure
/// of the argument at which the evaluation ended.
pub open spec fn evaluates(e: Expr, cache: &Cache, r: Result<ExpType, Error>) -> bool
    decreases e,
{
    match e {
        Expr::Variable(name) => match cache.variable_index(name) {
            Some(i) => r == Ok::<ExpType, Error>(cache.variables@[i].value),
            None => fails_as(r, ErrorKind::VariableNotFound),
        },
        Expr::Call(name, args) => exists|params: Seq<ExpType>|
            #![trigger params.len()]
            {
                &&& params.len() <= args.len()
                &&& forall|i: int|
                    0 <= i < params.len() ==> evaluates(#[trigger] args[i], cache, Ok(params[i]))
                &&& if params.len() == args.len() {
                    cache.call_may_return(name, params, r)
                } else {
                    r is Err && evaluates(args[params.len() as int], cache, r)
                }
            },
        Expr::Number(text) => literal_result(number_value(text), r),
        Expr::Boolean(text) => literal_result(boolean_value(text), r),
        Expr::Text(text) => yields(r, Value::Text(text)),
    }
}

/// What a number of the grammar evaluates to: with a `.` in it, the float of
/// that numeral; without one, the integer that its digits denote, sign
/// included, where that is a 32-bit integer, and a failure of kind
/// `LiteralParseError` where it is not.
pub proof fn lemma_number_literal_value(text: Seq<char>, cache: &Cache, r: Result<ExpType, Error>)
    requires
        is_number_literal(text),
        evaluates(Expr::Number(text), cache, r),
    ensures
        text.contains('.') ==> yields(r, Value::Float(text)),
        !text.contains('.') && i32::MIN <= integer_value(text) <= i32::MAX ==> yields(
            r,
            Value::Integer(integer_value(text)),
        ),
        !text.contains('.') && !(i32::MIN <= integer_value(text) <= i32::MAX) ==> fails_as(
            r,
            ErrorKind::LiteralParseError,
        ),
{
    if !text.contains('.') {
        lemma_pointless_number_is_integer(text);
    }
}

/// Whether `text` holds a `.`.
fn has_point(text: &str) -> (yes: bool)
    ensures
        yes == text@.contains('.'),
{
    let chars = chars_of(text);
    let mut i: usize = 0;
    while i < chars.len()
        invariant
            i <= chars@.len(),
            chars@ == text@,
            forall|j: int| 0 <= j < i ==> chars@[j] != '.',
        decreases chars@.len() - i,
    {
        if chars[i] == '.' {
            return true;
        }
        i = i + 1;
    }
    false
}

/// A failure of kind `LiteralParseError`.
fn literal_error() -> (r: Result<ExpType, Error>)
    ensures
        fails_as(r, ErrorKind::LiteralParseError),
{
    Err(Error::with_kind(ErrorKind::LiteralParseError, "the literal has no value".to_owned()))
}

/// Evaluates `node` against `cache`.
pub fn parse_value(node: &Node, cache: &Cache) -> (r: Result<ExpType, Error>)
    ensures
        evaluates(node@, cache, r),
    decreases node,
{
    match node {
        Node::Variable(name) => {
            match cache.get_variable(name.as_str()) {
                Some(variable) => Ok(variable.value.clone()),
                None => Err(
                    Error::with_kind(ErrorKind::VariableNotFound, "variable not found".to_owned()),
                ),
            }
        },
        Node::Call(name, args) => parse_function(name, args, cache),
        Node::Number(text) => {
            if has_point(text.as_str()) {
                Ok(ExpType::FLOAT(text.clone()))
            } else {
                match parse_integer(text.as_str()) {
                    Some(n) => Ok(ExpType::INT(n)),
                    None => literal_error(),
                }
            }
        },
        Node::Boolean(text) => {
            proof {
                reveal_strlit("true");
                reveal_strlit("false");
                assert("true"@ =~= seq!['t', 'r', 'u', 'e']);
                assert("false"@ =~= seq!['f', 'a', 'l', 's', 'e']);
            }
            if same_text(text.as_str(), "true") {
                Ok(ExpType::BOOL(true))
            } else if same_text(text.as_str(), "false") {
                Ok(ExpType::BOOL(false))
            } else {
                literal_error()
            }
        },
        Node::Text(text) => Ok(ExpType::STRING(text.clone())),
    }
}

/// Evaluates the call of the function `name` with the arguments `args`
/// against `cache`: the arguments first, from left to right, then the call.
/// The first argument that fails ends the evaluation with its failure.
pub fn parse_function(name: &String, args: &Vec<Node>, cache: &Cache) -> (r: Result<
    ExpType,
    Error,
>)
    ensures
        evaluates(Expr::Call(name@, views(args@)), cache, r),
    decreases args,
{
    let ghost exprs = views(args@);
    proof {
        lemma_views(args@);
    }
    let mut params: Vec<ExpType> = Vec::new();
    let mut i: usize = 0;
    while i < args.len()
        invariant
            i <= args@.len(),
            exprs == views(args@),
            exprs.len() == args@.len(),
            forall|j: int| 0 <= j < args@.len() ==> #[trigger] exprs[j] == args@[j]@,
            params@.len() == i,
            forall|j: int| 0 <= j < i ==> evaluates(#[trigger] exprs[j], cache, Ok(params@[j])),
        decreases args@.len() - i,
    {
        match parse_value(&args[i], cache) {
            Ok(value) => {
                params.push(value);
            },
            Err(e) => {
                let r = Err(e);
                proof {
                    assert(params@.len() < exprs.len());
                    assert(evaluates(exprs[params@.len() as int], cache, r));
                }
                return r;
            },
        }
        i = i + 1;
    }
    cache.call(name.as_str(), params)
}

/// `results` holds, item by item, a result that the item may evaluate to
/// against `cache`.
pub open spec fn evaluates_each(
    items: Seq<Expr>,
    cache: &Cache,
    results: Seq<Result<ExpType, Error>>,
) -> bool {
    &&& results.len() == items.len()
    &&& forall|i: int| 0 <= i < items.len() ==> evaluates(#[trigger] items[i], cache, results[i])
}

/// What a result adds to the rendered text: the text of a value, nothing
/// for a failure.
pub open spec fn piece(r: Result<ExpType, Error>) -> Seq<char> {
    match r {
        Ok(v) => v@.text(),
        Err(_) => Seq::empty(),
    }
}

/// The pieces of `results`, one after the other.
pub open spec fn joined(results: Seq<Result<ExpType, Error>>) -> Seq<char>
    decreases results.len(),
{
    if results.len() == 0 {
        Seq::empty()
    } else {
        joined(results.drop_last()) + piece(results.last())
    }
}

/// Whether `items` may render to `out` against `cache`: `out` joins the
/// pieces of results that the items may evaluate to.
pub open spec fn renders(items: Seq<Expr>, cache: &Cache, out: Seq<char>) -> bool {
    exists|results: Seq<Result<ExpType, Error>>|
        #![trigger joined(results)]
        evaluates_each(items, cache, results) && out == joined(results)
}

/// Joining the pieces of two lists of results, one list after the other,
/// joins what each list gives.
pub proof fn lemma_joined_concat(
    x: Seq<Result<ExpType, Error>>,
    y: Seq<Result<ExpType, Error>>,
)
    ensures
        joined(x + y) == joined(x) + joined(y),
    decreases y.len(),
{
    if y.len() == 0 {
        assert(x + y =~= x);
        assert(joined(x) + joined(y) =~= joined(x));
    } else {
        lemma_joined_concat(x, y.drop_last());
        assert((x + y).drop_last() =~= x + y.drop_last());
        assert((x + y).last() == y.last());
        assert(joined(x + y) =~= joined(x) + joined(y));
    }
}

/// Items that stand one list after the other render to what the first list
/// renders to, followed by what the second renders to; and to nothing else.
pub proof fn lemma_renders_concat(x: Seq<Expr>, y: Seq<Expr>, cache: &Cache, out: Seq<char>)
    ensures
        renders(x + y, cache, out) <==> exists|first: Seq<char>, second: Seq<char>|
            #![trigger first + second]
            renders(x, cache, first) && renders(y, cache, second) && out == first + second,
{
    let both = x + y;
    if renders(both, cache, out) {
        let results = choose|results: Seq<Result<ExpType, Error>>|
            #![trigger joined(results)]
            evaluates_each(both, cache, results) && out == joined(results);
        let rx = results.take(x.len() as int);
        let ry = results.skip(x.len() as int);
        assert(results =~= rx + ry);
        lemma_joined_concat(rx, ry);
        assert forall|i: int| 0 <= i < x.len() implies evaluates(#[trigger] x[i], cache, rx[i]) by {
            assert(both[i] == x[i]);
        }
        assert forall|i: int| 0 <= i < y.len() implies evaluates(#[trigger] y[i], cache, ry[i]) by {
            assert(both[x.len() + i] == y[i]);
        }
        assert(evaluates_each(x, cache, rx));
        assert(evaluates_each(y, cache, ry));
        assert(renders(x, cache, joined(rx)));
        assert(renders(y, cache, joined(ry)));
        assert(out == joined(rx) + joined(ry));
    }
    if exists|first: Seq<char>, second: Seq<char>|
        #![trigger first + second]
        renders(x, cache, first) && renders(y, cache, second) && out == first + second {
        let (first, second) = choose|first: Seq<char>, second: Seq<char>|
            #![trigger first + second]
            renders(x, cache, first) && renders(y, cache, second) && out == first + second;
        let rx = choose|results: Seq<Result<ExpType, Error>>|
            #![trigger joined(results)]
            evaluates_each(x, cache, results) && first == joined(results);
        let ry = choose|results: Seq<Result<ExpType, Error>>|
            #![trigger joined(results)]
            evaluates_each(y, cache, results) && second == joined(results);
        let results = rx + ry;
        lemma_joined_concat(rx, ry);
        assert forall|i: int| 0 <= i < both.len() implies evaluates(
            #[trigger] both[i],
            cache,
            results[i],
        ) by {
            if i < x.len() {
                assert(both[i] == x[i]);
                assert(evaluates(x[i], cache, rx[i]));
            } else {
                assert(both[i] == y[i - x.len()]);
                assert(evaluates(y[i - x.len()], cache, ry[i - x.len()]));
            }
        }
        assert(evaluates_each(both, cache, results));
        assert(out == joined(results));
    }
}

/// Two templates joined by `+` render to what the first renders to,
/// followed by what the second renders to; and to nothing else.
pub proof fn lemma_render_joined(a: Seq<char>, b: Seq<char>, cache: &Cache, out: Seq<char>)
    requires
        template(a) is Some,
        template(b) is Some,
    ensures
        template(a + seq!['+'] + b) is Some,
        renders(template(a + seq!['+'] + b)->0, cache, out) <==> exists|
            first: Seq<char>,
            second: Seq<char>,
        |
            #![trigger first + second]
            renders(template(a)->0, cache, first) && renders(template(b)->0, cache, second) && out
                == first + second,
{
    lemma_template_joined(a, b);
    lemma_renders_concat(template(a)->0, template(b)->0, cache, out);
}

/// Evaluates every item of the template `input` against `cache`.
///
/// Input that is no template fails as a whole, as `SyntaxError`, with a
/// message that says what was missed and at which character; no item is
/// evaluated. Else there is one result for each item, in their order; the
/// failure of one item does not keep the others from being evaluated. The
/// registry is left as it was.
pub fn parser(input: &str, cache: &mut Cache) -> (r: Result<Vec<Result<ExpType, Error>>, Error>)
    ensures
        *final(cache) == *old(cache),
        match template(input@) {
            Some(items) => r matches Ok(results) && evaluates_each(items, &*old(cache), results@),
            None => r matches Err(e) && e.kind == ErrorKind::SyntaxError && e.message@
                == syntax_message(input@, 0),
        },
{
    let nodes = match parse_template(input) {
        Ok(nodes) => nodes,
        Err(e) => {
            return Err(e);
        },
    };
    let ghost items = views(nodes@);
    proof {
        lemma_views(nodes@);
    }
    let mut results: Vec<Result<ExpType, Error>> = Vec::new();
    let mut i: usize = 0;
    while i < nodes.len()
        invariant
            i <= nodes@.len(),
            *cache == *old(cache),
            items == views(nodes@),
            items.len() == nodes@.len(),
            forall|j: int| 0 <= j < nodes@.len() ==> #[trigger] items[j] == nodes@[j]@,
            results@.len() == i,
            forall|j: int| 0 <= j < i ==> evaluates(#[trigger] items[j], &*cache, results@[j]),
        decreases nodes@.len() - i,
    {
        let r = parse_value(&nodes[i], cache);
        results.push(r);
        i = i + 1;
    }
    Ok(results)
}

/// The text that `results` render to: the texts of the values, one after the
/// other, with nothing for a failure.
pub fn join_results(results: &Vec<Result<ExpType, Error>>) -> (out: String)
    ensures
        out@ == joined(results@),
{
    let mut out = String::new();
    let mut i: usize = 0;
    while i < results.len()
        invariant
            i <= results@.len(),
            out@ == joined(results@.take(i as int)),
        decreases results@.len() - i,
    {
        proof {
            let next = results@.take(i + 1);
            assert(next.drop_last() =~= results@.take(i as int));
            assert(next.last() == results@[i as int]);
        }
        match &results[i] {
            Ok(value) => {
                let text = value.to_string();
                out.append(text.as_str());
            },
            Err(_) => {
                assert(out@ + Seq::<char>::empty() =~= out@);
            },
        }
        i = i + 1;
    }
    proof {
        assert(results@.take(results@.len() as int) =~= results@);
    }
    out
}

/// Renders the template `input` against `cache`: the texts of the values of
/// its items, one after the other. An item that fails adds nothing, and
/// input that is no template renders to the empty text. The registry is
/// left as it was.
pub fn parse_to_string(input: &str, cache: &mut Cache) -> (out: String)
    ensures
        *final(cache) == *old(cache),
        match template(input@) {
            Some(items) => renders(items, &*old(cache), out@),
            None => out@ == Seq::<char>::empty(),
        },
{
    match parser(input, cache) {
        Ok(results) => join_results(&results),
        Err(_) => String::new(),
    }
}

} // verus!
