//! Reading tool arguments.
use vstd::prelude::*;

use crate::error::Error;
use crate::json::{Json, JsonView, Number};
use crate::text::cat3;

verus! {

/// The text of the string argument `key`; empty when it is absent or no string.
pub open spec fn arg_text(args: JsonView, key: Seq<char>) -> Seq<char> {
    match args.get(key) {
        Some(JsonView::Text(s)) => s,
        _ => Seq::empty(),
    }
}

/// The string argument `key`, or the empty string.
pub fn text_arg(args: &Json, key: &str) -> (s: String)
    ensures
        s@ == arg_text(args@, key@),
{
    match args.get(key) {
        Some(v) => match v.as_str() {
            Some(s) => s.to_owned(),
            None => String::new(),
        },
        None => String::new(),
    }
}

/// The text of the string argument `key`, when it is one.
pub open spec fn given_text(args: JsonView, key: Seq<char>) -> Option<Seq<char>> {
    match args.get(key) {
        Some(JsonView::Text(s)) => Some(s),
        _ => None,
    }
}

/// The text of the string argument `key`, or `default`.
pub open spec fn text_or(args: JsonView, key: Seq<char>, default: Seq<char>) -> Seq<char> {
    match given_text(args, key) {
        Some(s) => s,
        None => default,
    }
}

/// The optional string argument `key`.
pub fn opt_str(args: &Json, key: &str) -> (r: Option<String>)
    ensures
        match r {
            Some(s) => given_text(args@, key@) == Some(s@),
            None => given_text(args@, key@) is None,
        },
{
    match args.get(key) {
        Some(v) => match v.as_str() {
            Some(s) => Some(s.to_owned()),
            None => None,
        },
        None => None,
    }
}

/// The required string argument `key`.
pub fn req_str(args: &Json, key: &str) -> (r: Result<String, Error>)
    ensures
        match r {
            Ok(s) => given_text(args@, key@) == Some(s@),
            Err(e) => given_text(args@, key@) is None && e is InvalidInput && e.text()
                == "missing required argument `"@ + key@ + "`"@,
        },
{
    match opt_str(args, key) {
        Some(s) => Ok(s),
        None => Err(Error::InvalidInput(cat3("missing required argument `", key, "`"))),
    }
}

/// The string argument `key`, or `default`.
pub fn str_or(args: &Json, key: &str, default: &str) -> (s: String)
    ensures
        s@ == text_or(args@, key@, default@),
{
    match opt_str(args, key) {
        Some(s) => s,
        None => default.to_owned(),
    }
}

/// The truth value of the boolean argument `key`; false when it is none.
pub open spec fn flag_given(args: JsonView, key: Seq<char>) -> bool {
    args.get(key) == Some(JsonView::Bool(true))
}

/// The boolean argument `key`, or false.
pub fn flag_arg(args: &Json, key: &str) -> (r: bool)
    ensures
        r == flag_given(args@, key@),
{
    match args.get(key) {
        Some(v) => match v.as_bool() {
            Some(b) => b,
            None => false,
        },
        None => false,
    }
}

/// The non-negative integer argument `key`, or `default`.
pub open spec fn count_or(args: JsonView, key: Seq<char>, default: int) -> int {
    match args.get(key) {
        Some(v) => match v.natural() {
            Some(n) => n,
            None => default,
        },
        None => default,
    }
}

/// The non-negative integer argument `key`, or `default`.
pub fn count_arg(args: &Json, key: &str, default: u64) -> (n: u64)
    ensures
        n == count_or(args@, key@, default as int),
{
    match args.get(key) {
        Some(v) => match v.as_u64() {
            Some(n) => n,
            None => default,
        },
        None => default,
    }
}

/// The integer argument `key`, when it is one.
pub open spec fn given_int(args: JsonView, key: Seq<char>) -> Option<int> {
    match args.get(key) {
        Some(v) => v.integer(),
        None => None,
    }
}

/// The optional integer argument `key`.
pub fn opt_int(args: &Json, key: &str) -> (r: Option<i64>)
    ensures
        match r {
            Some(n) => given_int(args@, key@) == Some(n as int),
            None => given_int(args@, key@) is None,
        },
{
    match args.get(key) {
        Some(v) => v.as_i64(),
        None => None,
    }
}

/// `n`, held between `low` and `high`.
pub open spec fn held(n: int, low: int, high: int) -> int {
    if n < low {
        low
    } else if n > high {
        high
    } else {
        n
    }
}

/// `n`, held between `low` and `high`.
pub fn hold(n: u64, low: u64, high: u64) -> (r: u64)
    ensures
        r == held(n as int, low as int, high as int),
{
    if n < low {
        low
    } else if n > high {
        high
    } else {
        n
    }
}

/// The number that the argument `key` is, when it is one.
pub open spec fn given_number(args: JsonView, key: Seq<char>) -> Option<JsonView> {
    match args.get(key) {
        Some(JsonView::Int(n)) => Some(JsonView::Int(n)),
        Some(JsonView::Other(t)) => Some(JsonView::Other(t)),
        _ => None,
    }
}

/// The optional number argument `key`.
pub fn opt_number<'a>(args: &'a Json, key: &str) -> (r: Option<&'a Number>)
    ensures
        match r {
            Some(n) => given_number(args@, key@) == Some(n@),
            None => given_number(args@, key@) is None,
        },
{
    match args.get(key) {
        Some(v) => match v {
            Json::Number(n) => Some(n),
            _ => None,
        },
        None => None,
    }
}

/// What lies between the bounds is kept, and what does not is brought to the
/// nearer one.
pub proof fn law_held_between_the_bounds(n: int, low: int, high: int)
    requires
        low <= high,
    ensures
        low <= held(n, low, high) <= high,
        low <= n <= high ==> held(n, low, high) == n,
        n < low ==> held(n, low, high) == low,
        n > high ==> held(n, low, high) == high,
{
}

/// An argument is what the call gives under its name, where it is of the right
/// kind, and else the default.
pub proof fn law_arguments_are_read_by_name(args: JsonView, key: Seq<char>, default: Seq<char>, n: int)
    ensures
        args.get(key) matches Some(JsonView::Text(s)) ==> given_text(args, key) == Some(s)
            && text_or(args, key, default) == s && arg_text(args, key) == s,
        !(args.get(key) is Some && args.get(key)->0 is Text) ==> given_text(args, key) is None
            && text_or(args, key, default) == default && arg_text(args, key).len() == 0,
        args.get(key) matches Some(JsonView::Int(k)) ==> (i64::MIN <= k <= i64::MAX ==> given_int(
            args,
            key,
        ) == Some(k)) && (0 <= k <= u64::MAX ==> count_or(args, key, n) == k),
        args.get(key) is None ==> given_int(args, key) is None && count_or(args, key, n) == n
            && !flag_given(args, key),
        args.get(key) matches Some(JsonView::Bool(b)) ==> flag_given(args, key) == b,
{
}

} // verus!
