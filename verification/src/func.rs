//! The functions that every registry holds from the start.

use vstd::prelude::*;
use vstd::string::*;
use rand::Rng;
use crate::cache::{fails_as, Callable, ExpType, Value};
use crate::error::{Error, ErrorKind};

verus! {

/// `c` is a digit or an unaccented Latin letter.
pub open spec fn is_alphanumeric(c: char) -> bool {
    ('0' <= c && c <= '9') || ('a' <= c && c <= 'z') || ('A' <= c && c <= 'Z')
}

/// Calls `random_string::generate`, which draws `length` characters from
/// `charset`, each at random, and joins them. Trusted: the text has `length`
/// characters and each of them occurs in `charset`. The outside function
/// panics on an empty charset and reserves room for `length` bytes at once,
/// hence the two demands; with an ASCII charset the text never outgrows that.
#[verifier::external_body]
fn generate_from_charset(length: usize, charset: &str) -> (text: String)
    requires
        charset@.len() > 0,
        charset.is_ascii(),
        length <= isize::MAX,
    ensures
        text@.len() == length,
        forall|i: int| 0 <= i < text@.len() ==> charset@.contains(#[trigger] text@[i]),
{
    random_string::generate(length, charset)
}

/// What [`random_str`] may return when called with `params`.
pub open spec fn random_str_returns(params: Seq<ExpType>, r: Result<ExpType, Error>) -> bool {
    if params.len() != 1 {
        fails_as(r, ErrorKind::ArityMismatch)
    } else {
        match params[0] {
            ExpType::INT(n) => if n < 0 {
                fails_as(r, ErrorKind::TypeMismatch)
            } else {
                &&& r matches Ok(ExpType::STRING(s))
                &&& s@.len() == n
                &&& forall|i: int| 0 <= i < s@.len() ==> is_alphanumeric(#[trigger] s@[i])
            },
            _ => fails_as(r, ErrorKind::TypeMismatch),
        }
    }
}

/// A random string of digits and unaccented Latin letters.
///
/// Takes one argument, the length, an integer that is not negative. Any
/// other number of arguments is an arity mismatch, any other argument a type
/// mismatch.
pub fn random_str(params: Vec<ExpType>) -> (r: Result<ExpType, Error>)
    ensures
        random_str_returns(params@, r),
{
    if params.len() != 1 {
        return Err(
            Error::with_kind(
                ErrorKind::ArityMismatch,
                "random_str function only accept one parameter".to_owned(),
            ),
        );
    }
    let length: i32 = match &params[0] {
        ExpType::INT(i) => *i,
        _ => {
            return Err(
                Error::with_kind(
                    ErrorKind::TypeMismatch,
                    "random_str function only accept one int32 parameter".to_owned(),
                ),
            );
        },
    };
    if length < 0 {
        return Err(
            Error::with_kind(
                ErrorKind::TypeMismatch,
                "random_str function only accept a length that is not negative".to_owned(),
            ),
        );
    }
    let charset = "0123456789abcdefghijklmnopqrstuvwxyzABCDEFGHIJKLMNOPQRSTUVWXYZ";
    proof {
        reveal_strlit("0123456789abcdefghijklmnopqrstuvwxyzABCDEFGHIJKLMNOPQRSTUVWXYZ");
        assert(forall|j: int| 0 <= j < charset@.len() ==> is_alphanumeric(#[trigger] charset@[j]));
    }
    let text = generate_from_charset(length as usize, charset);
    Ok(ExpType::STRING(text))
}

/// Calls `rand::thread_rng` and `Rng::gen` for a `bool`. Trusted: nothing
/// but that a flag comes back.
#[verifier::external_body]
fn random_flag() -> (flag: bool) {
    rand::thread_rng().gen::<bool>()
}

/// What [`random_bool`] may return: a boolean, whatever the arguments.
pub open spec fn random_bool_returns(params: Seq<ExpType>, r: Result<ExpType, Error>) -> bool {
    r matches Ok(ExpType::BOOL(_))
}

/// The value that [`random_bool`] makes of the flag that was drawn: that
/// flag, as a boolean.
pub fn random_bool_value(flag: bool) -> (r: Result<ExpType, Error>)
    ensures
        r == Ok::<ExpType, Error>(ExpType::BOOL(flag)),
{
    Ok(ExpType::BOOL(flag))
}

/// A random boolean. The arguments are not looked at, and the call never
/// fails.
pub fn random_bool(_params: Vec<ExpType>) -> (r: Result<ExpType, Error>)
    ensures
        random_bool_returns(_params@, r),
{
    random_bool_value(random_flag())
}

/// Calls `rand::thread_rng` and `Rng::gen` for an `i32`. Trusted: nothing
/// but that a number comes back.
#[verifier::external_body]
fn random_i32() -> (n: i32) {
    rand::thread_rng().gen::<i32>()
}

/// Calls `rand::thread_rng` and `Rng::gen_range` on `low..high`. Trusted: the
/// number lies in the range, its lower bound included and its upper bound
/// not. The outside function panics on an empty range, hence the demand.
#[verifier::external_body]
fn random_i32_between(low: i32, high: i32) -> (n: i32)
    requires
        low < high,
    ensures
        low <= n < high,
{
    rand::thread_rng().gen_range(low..high)
}

/// `r` is an integer from `low` up to, but not including, `high`; or, where
/// there is no such integer, a type mismatch.
pub open spec fn integer_between(low: int, high: int, r: Result<ExpType, Error>) -> bool {
    if low < high {
        r matches Ok(ExpType::INT(n)) && low <= n < high
    } else {
        fails_as(r, ErrorKind::TypeMismatch)
    }
}

/// What [`random_num`] makes of the outcome `out` of a float draw: the float
/// that was drawn; the failure that the draw reported; and a type mismatch
/// where the draw gave a value that is no float.
pub open spec fn drawn_result(out: Result<ExpType, Error>, r: Result<ExpType, Error>) -> bool {
    match out {
        Ok(ExpType::FLOAT(_)) => r == out,
        Ok(_) => fails_as(r, ErrorKind::TypeMismatch),
        Err(_) => r == out,
    }
}

/// `r` is what comes of asking `float_draw` for a float between `low` and
/// `high`: the draw is called with these two bounds, as floats and in this
/// order, and `r` is made of what it returns as [`drawn_result`] says.
pub open spec fn float_between(
    float_draw: &Box<dyn Callable>,
    low: Seq<char>,
    high: Seq<char>,
    r: Result<ExpType, Error>,
) -> bool {
    exists|bounds: Seq<ExpType>, out: Result<ExpType, Error>|
        {
            &&& bounds.len() == 2
            &&& bounds[0]@ == Value::Float(low)
            &&& bounds[1]@ == Value::Float(high)
            &&& #[trigger] float_draw.may_return(bounds, out)
            &&& drawn_result(out, r)
        }
}

/// The numeral of zero, the lower bound where only the upper one is given.
pub open spec fn zero_numeral() -> Seq<char> {
    seq!['0', '.', '0']
}

/// What [`random_num`] may return when called with `params`, where
/// `float_draw` draws its floats.
pub open spec fn random_num_returns(
    float_draw: &Box<dyn Callable>,
    params: Seq<ExpType>,
    r: Result<ExpType, Error>,
) -> bool {
    if params.len() == 0 {
        r matches Ok(ExpType::INT(_))
    } else if params.len() == 1 {
        match params[0] {
            ExpType::INT(n) => integer_between(0, n as int, r),
            ExpType::FLOAT(high) => float_between(float_draw, zero_numeral(), high@, r),
            _ => fails_as(r, ErrorKind::TypeMismatch),
        }
    } else if params.len() == 2 {
        match (params[0], params[1]) {
            (ExpType::INT(a), ExpType::INT(b)) => integer_between(a as int, b as int, r),
            (ExpType::FLOAT(low), ExpType::FLOAT(high)) => float_between(
                float_draw,
                low@,
                high@,
                r,
            ),
            _ => fails_as(r, ErrorKind::TypeMismatch),
        }
    } else {
        fails_as(r, ErrorKind::ArityMismatch)
    }
}

/// A random integer from `low` up to, but not including, `high`.
fn sample_between(low: i32, high: i32) -> (r: Result<ExpType, Error>)
    ensures
        integer_between(low as int, high as int, r),
{
    if low < high {
        Ok(ExpType::INT(random_i32_between(low, high)))
    } else {
        Err(
            Error::with_kind(
                ErrorKind::TypeMismatch,
                "random_num function only accept a range that is not empty".to_owned(),
            ),
        )
    }
}

/// The value that [`random_num`] makes of what a float draw returned: the
/// float itself, the failure itself, or a type mismatch for a value that is
/// no float.
pub fn float_draw_value(out: Result<ExpType, Error>) -> (r: Result<ExpType, Error>)
    ensures
        drawn_result(out, r),
{
    match out {
        Ok(ExpType::FLOAT(numeral)) => Ok(ExpType::FLOAT(numeral)),
        Ok(_) => Err(
            Error::with_kind(
                ErrorKind::TypeMismatch,
                "random_num function only accept a float from its float draw".to_owned(),
            ),
        ),
        Err(e) => Err(e),
    }
}

/// Asks `float_draw` for a float between `low` and `high`.
fn draw_between(low: String, high: String, float_draw: &Box<dyn Callable>) -> (r: Result<
    ExpType,
    Error,
>)
    ensures
        float_between(float_draw, low@, high@, r),
{
    let mut bounds: Vec<ExpType> = Vec::new();
    bounds.push(ExpType::FLOAT(low));
    bounds.push(ExpType::FLOAT(high));
    let out = float_draw.call(bounds);
    float_draw_value(out)
}

/// A random number.
///
/// Without arguments any 32-bit integer may come. With one integer `n` the
/// number is an integer in `0..n`, with two integers `a` and `b` one in
/// `a..b`, the upper bound never included; a range that holds no integer is
/// a type mismatch. With one float `f` the number is a float between `0.0`
/// and `f`, with two floats `a` and `b` one between `a` and `b`: this crate
/// has no floating-point arithmetic, so the float is drawn by `float_draw`,
/// which the host hands in and which is called with the two bounds; what it
/// draws, or the failure it reports, is the result. Arguments of two kinds,
/// and an argument that is no number, are a type mismatch; more than two
/// arguments are an arity mismatch.
pub fn random_num(params: Vec<ExpType>, float_draw: &Box<dyn Callable>) -> (r: Result<
    ExpType,
    Error,
>)
    ensures
        random_num_returns(float_draw, params@, r),
{
    let count = params.len();
    if count == 0 {
        Ok(ExpType::INT(random_i32()))
    } else if count == 1 {
        match &params[0] {
            ExpType::INT(n) => sample_between(0, *n),
            ExpType::FLOAT(high) => {
                proof {
                    reveal_strlit("0.0");
                    assert("0.0"@ =~= zero_numeral());
                }
                draw_between("0.0".to_owned(), high.clone(), float_draw)
            },
            _ => Err(
                Error::with_kind(
                    ErrorKind::TypeMismatch,
                    "random_num function only accept a int32 or float32 parameter".to_owned(),
                ),
            ),
        }
    } else if count == 2 {
        match (&params[0], &params[1]) {
            (ExpType::INT(a), ExpType::INT(b)) => sample_between(*a, *b),
            (ExpType::FLOAT(low), ExpType::FLOAT(high)) => draw_between(
                low.clone(),
                high.clone(),
                float_draw,
            ),
            _ => Err(
                Error::with_kind(
                    ErrorKind::TypeMismatch,
                    "random_num function only accept two int32 or float32 parameter".to_owned(),
                ),
            ),
        }
    } else {
        Err(
            Error::with_kind(
                ErrorKind::ArityMismatch,
                "random_num function only accept 0-2 parameters".to_owned(),
            ),
        )
    }
}

/// Calls `hostname::get` and turns the name into a `String`. Trusted: nothing
/// of the outcome, which is the machine's to give: `Ok(Some(..))` holds the
/// name, `Ok(None)` says that the name is not UTF-8, `Err(..)` holds the
/// system's own words for its failure.
#[verifier::external_body]
fn system_hostname() -> (outcome: Result<Option<String>, String>) {
    match hostname::get() {
        Ok(raw) => Ok(raw.into_string().ok()),
        Err(e) => Err(e.to_string()),
    }
}

/// The value that [`hostname`] makes of what the system answered: the name
/// as a string, or a failed system query.
pub fn hostname_value(outcome: Result<Option<String>, String>) -> (r: Result<ExpType, Error>)
    ensures
        match outcome {
            Ok(Some(name)) => r == Ok::<ExpType, Error>(ExpType::STRING(name)),
            Ok(None) => fails_as(r, ErrorKind::SystemQueryFailed),
            Err(words) => r matches Err(e) && e.kind == ErrorKind::SystemQueryFailed && e.message
                == words,
        },
{
    match outcome {
        Ok(Some(name)) => Ok(ExpType::STRING(name)),
        Ok(None) => Err(
            Error::with_kind(
                ErrorKind::SystemQueryFailed,
                "hostname function found a name that is not UTF-8".to_owned(),
            ),
        ),
        Err(words) => Err(Error::with_kind(ErrorKind::SystemQueryFailed, words)),
    }
}

/// What [`hostname`] may return: a string, or a failed system query.
pub open spec fn hostname_returns(params: Seq<ExpType>, r: Result<ExpType, Error>) -> bool {
    r matches Ok(ExpType::STRING(_)) || fails_as(r, ErrorKind::SystemQueryFailed)
}

/// The network name of this machine. The arguments are not looked at.
pub fn hostname(_params: Vec<ExpType>) -> (r: Result<ExpType, Error>)
    ensures
        hostname_returns(_params@, r),
{
    hostname_value(system_hostname())
}

/// Calls `chrono::Local::now`, `DateTime::format` with `pattern`, and
/// `DelayedFormat::write_to` into a fresh string. Trusted: nothing of the
/// outcome, which depends on the clock: `Some(..)` holds the formatted time,
/// `None` says that chrono found a specifier in `pattern` that it does not
/// know. On a machine whose clock stands before 1970 chrono panics; no
/// demand on `pattern` can rule that out.
#[verifier::external_body]
fn local_time_text(pattern: &str) -> (formatted: Option<String>) {
    let mut text = String::new();
    match chrono::Local::now().format(pattern).write_to(&mut text) {
        Ok(()) => Some(text),
        Err(_) => None,
    }
}

/// The value that [`current_time`] makes of what formatting gave: the text
/// as a string, or a type mismatch where the pattern was refused.
pub fn current_time_value(formatted: Option<String>) -> (r: Result<ExpType, Error>)
    ensures
        match formatted {
            Some(text) => r == Ok::<ExpType, Error>(ExpType::STRING(text)),
            None => fails_as(r, ErrorKind::TypeMismatch),
        },
{
    match formatted {
        Some(text) => Ok(ExpType::STRING(text)),
        None => Err(
            Error::with_kind(
                ErrorKind::TypeMismatch,
                "current_time function only accept a strftime pattern".to_owned(),
            ),
        ),
    }
}

/// What [`current_time`] may return when called with `params`.
pub open spec fn current_time_returns(params: Seq<ExpType>, r: Result<ExpType, Error>) -> bool {
    if params.len() != 1 {
        fails_as(r, ErrorKind::ArityMismatch)
    } else {
        match params[0] {
            ExpType::STRING(_) => r matches Ok(ExpType::STRING(_)) || fails_as(
                r,
                ErrorKind::TypeMismatch,
            ),
            _ => fails_as(r, ErrorKind::TypeMismatch),
        }
    }
}

/// The local time of this machine, written after a strftime pattern.
///
/// Takes one argument, the pattern, a string. Any other number of arguments
/// is an arity mismatch; an argument that is no string, or a pattern with a
/// specifier that is not known, a type mismatch.
pub fn current_time(params: Vec<ExpType>) -> (r: Result<ExpType, Error>)
    ensures
        current_time_returns(params@, r),
{
    if params.len() != 1 {
        return Err(
            Error::with_kind(
                ErrorKind::ArityMismatch,
                "current_time function only accept one parameter".to_owned(),
            ),
        );
    }
    match &params[0] {
        ExpType::STRING(pattern) => current_time_value(local_time_text(pattern.as_str())),
        _ => Err(
            Error::with_kind(
                ErrorKind::TypeMismatch,
                "current_time function only accept one string parameter".to_owned(),
            ),
        ),
    }
}

} // verus!
