//! The JSON text of a payload, written and read through `serde_json`.
//!
//! The layout of the payload object is this crate's own and is spelled out in
//! `payload_text`. What `serde_json` alone decides is how a string is quoted
//! and what a document holds at a given place; those results are named here
//! and not defined, and nothing in this crate is proved about them beyond
//! their being fixed by their arguments.

use vstd::prelude::*;
use vstd::string::*;
use vstd::utf8::valid_utf8;

verus! {

/// The JSON string literal, quotes and escapes included, that `serde_json`
/// writes for `text`; `None` where it reports an error.
pub uninterp spec fn json_string(text: Seq<char>) -> Option<Seq<char>>;

/// The string that the JSON document `doc` holds at the JSON Pointer
/// `pointer`; `None` where `doc` is no JSON document, holds nothing there, or
/// holds something that is no string.
pub uninterp spec fn json_text_at(doc: Seq<char>, pointer: Seq<char>) -> Option<Seq<char>>;

/// The unsigned integer that the JSON document `doc` holds at the JSON Pointer
/// `pointer`; `None` where `doc` is no JSON document, holds nothing there, or
/// holds something that is no integer from 0 to `u64::MAX`.
pub uninterp spec fn json_u64_at(doc: Seq<char>, pointer: Seq<char>) -> Option<u64>;

/// Calls `serde_json::to_string` on a string slice. Trusted: the result is
/// the one that `json_string` names, and nothing more is claimed of it.
#[verifier::external_body]
pub(crate) fn quote(text: &str) -> (r: Option<String>)
    ensures
        match r {
            Some(quoted) => json_string(text@) == Some(quoted@),
            None => json_string(text@) is None,
        },
{
    serde_json::to_string(text).ok()
}

/// Calls `serde_json::from_str` for a `serde_json::Value`, then
/// `Value::pointer` and `Value::as_str` on it. Trusted: the result is the one
/// that `json_text_at` names, and nothing more is claimed of it.
#[verifier::external_body]
pub(crate) fn text_at(doc: &str, pointer: &str) -> (r: Option<String>)
    ensures
        match r {
            Some(text) => json_text_at(doc@, pointer@) == Some(text@),
            None => json_text_at(doc@, pointer@) is None,
        },
{
    let value: serde_json::Value = serde_json::from_str(doc).ok()?;
    value.pointer(pointer)?.as_str().map(String::from)
}

/// Calls `serde_json::from_str` for a `serde_json::Value`, then
/// `Value::pointer` and `Value::as_u64` on it. Trusted: the result is the one
/// that `json_u64_at` names, and nothing more is claimed of it.
#[verifier::external_body]
pub(crate) fn u64_at(doc: &str, pointer: &str) -> (r: Option<u64>)
    ensures
        r == json_u64_at(doc@, pointer@),
{
    let value: serde_json::Value = serde_json::from_str(doc).ok()?;
    value.pointer(pointer)?.as_u64()
}

/// Calls `core::str::from_utf8`. Trusted: it succeeds exactly on the byte
/// sequences that are UTF-8, and the text it hands out is spelled by those
/// same bytes.
#[verifier::external_body]
pub(crate) fn utf8_text(bytes: &[u8]) -> (r: Option<&str>)
    ensures
        r is Some <==> valid_utf8(bytes@),
        r matches Some(text) ==> text.spec_bytes() == bytes@,
{
    core::str::from_utf8(bytes).ok()
}

/// The decimal digit for `d`.
pub open spec fn digit(d: nat) -> char
    recommends
        d < 10,
{
    if d == 0 {
        '0'
    } else if d == 1 {
        '1'
    } else if d == 2 {
        '2'
    } else if d == 3 {
        '3'
    } else if d == 4 {
        '4'
    } else if d == 5 {
        '5'
    } else if d == 6 {
        '6'
    } else if d == 7 {
        '7'
    } else if d == 8 {
        '8'
    } else {
        '9'
    }
}

/// `n` in decimal, without sign or leading zeros.
pub open spec fn decimal(n: nat) -> Seq<char>
    decreases n,
{
    if n < 10 {
        seq![digit(n)]
    } else {
        decimal(n / 10).push(digit(n % 10))
    }
}

/// The text of a payload: a JSON object with the members `body`, `date` and
/// `author`, in that order and without white space, where `body` and `author`
/// stand for the two strings already quoted, and `date` holds the members
/// `secs_since_epoch` and `nanos_since_epoch`.
pub open spec fn payload_text(body: Seq<char>, secs: u64, nanos: u32, author: Seq<char>) -> Seq<
    char,
> {
    "{\"body\":"@ + body + ",\"date\":{\"secs_since_epoch\":"@ + decimal(secs as nat)
        + ",\"nanos_since_epoch\":"@ + decimal(nanos as nat) + "},\"author\":"@ + author + "}"@
}

fn digit_str(d: u64) -> (r: &'static str)
    requires
        d < 10,
    ensures
        r@ == seq![digit(d as nat)],
{
    proof {
        reveal_strlit("0");
        reveal_strlit("1");
        reveal_strlit("2");
        reveal_strlit("3");
        reveal_strlit("4");
        reveal_strlit("5");
        reveal_strlit("6");
        reveal_strlit("7");
        reveal_strlit("8");
        reveal_strlit("9");
    }
    let r = if d == 0 {
        "0"
    } else if d == 1 {
        "1"
    } else if d == 2 {
        "2"
    } else if d == 3 {
        "3"
    } else if d == 4 {
        "4"
    } else if d == 5 {
        "5"
    } else if d == 6 {
        "6"
    } else if d == 7 {
        "7"
    } else if d == 8 {
        "8"
    } else {
        "9"
    };
    assert(r@ =~= seq![digit(d as nat)]);
    r
}

/// Writes `n` in decimal.
pub fn decimal_string(n: u64) -> (r: String)
    ensures
        r@ == decimal(n as nat),
    decreases n,
{
    if n < 10 {
        String::from_str(digit_str(n))
    } else {
        let mut text = decimal_string(n / 10);
        text.append(digit_str(n % 10));
        assert(text@ =~= decimal(n as nat));
        text
    }
}

/// Writes the text of a payload around two strings that are already quoted.
pub fn payload_string(body: &str, secs: u64, nanos: u32, author: &str) -> (r: String)
    ensures
        r@ == payload_text(body@, secs, nanos, author@),
{
    let mut text = String::from_str("{\"body\":");
    text.append(body);
    text.append(",\"date\":{\"secs_since_epoch\":");
    text.append(decimal_string(secs).as_str());
    text.append(",\"nanos_since_epoch\":");
    text.append(decimal_string(nanos as u64).as_str());
    text.append("},\"author\":");
    text.append(author);
    text.append("}");
    text
}

} // verus!
