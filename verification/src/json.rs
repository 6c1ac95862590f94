//! JSON text.

use crate::codec;
use crate::text;
use vstd::prelude::*;

verus! {

/// A JSON text written anew; `None` when it is no JSON.
pub uninterp spec fn json_rewritten(s: Seq<char>) -> Option<Seq<char>>;

/// A character as it stands in a JSON string: quotes, backslashes and control characters are
/// escaped.
pub open spec fn json_char(c: char) -> Seq<char> {
    if c == '"' {
        "\\\""@
    } else if c == '\\' {
        "\\\\"@
    } else if c as u32 == 8 {
        "\\b"@
    } else if c as u32 == 9 {
        "\\t"@
    } else if c as u32 == 10 {
        "\\n"@
    } else if c as u32 == 12 {
        "\\f"@
    } else if c as u32 == 13 {
        "\\r"@
    } else if (c as u32) < 32 {
        "\\u00"@ + codec::hex_text(seq![c as u8])
    } else {
        seq![c]
    }
}

/// The characters of a text as they stand in a JSON string.
pub open spec fn json_escaped(s: Seq<char>) -> Seq<char>
    decreases s.len(),
{
    if s.len() == 0 {
        Seq::empty()
    } else {
        json_escaped(s.drop_last()) + json_char(s.last())
    }
}

/// A text as a JSON string.
pub open spec fn json_quoted(s: Seq<char>) -> Seq<char> {
    "\""@ + json_escaped(s) + "\""@
}

/// Reads a text with `serde_json::from_str` and writes the value with its `Display`.
///
/// What comes out depends on the text alone.
#[verifier::external_body]
pub(crate) fn rewrite(s: &str) -> (r: Option<String>)
    ensures
        text::opt_view(r) == json_rewritten(s@),
{
    serde_json::from_str::<serde_json::Value>(s).ok().map(|v| v.to_string())
}

/// Writes a text as a JSON string, with the `Display` of `serde_json::Value::String`.
///
/// What comes out is the text in quotes, with the characters escaped that have to be, see
/// [`json_quoted`].
#[verifier::external_body]
pub(crate) fn quote(s: &str) -> (r: String)
    ensures
        r@ == json_quoted(s@),
{
    serde_json::Value::String(s.to_string()).to_string()
}

/// The JSON text that a value is stored as: itself, written anew, where it is JSON; else a
/// JSON string of it.
pub open spec fn stored_text(value: Seq<char>, rewritten: Option<Seq<char>>) -> Seq<char> {
    match rewritten {
        Some(s) => s,
        None => json_quoted(value),
    }
}

/// The JSON text that a value is stored as, see [`stored_text`].
pub fn to_stored(value: &str) -> (r: String)
    ensures
        r@ == stored_text(value@, json_rewritten(value@)),
{
    let rewritten = rewrite(value);
    store_as(value, rewritten)
}

/// The JSON text that a value is stored as, when it is known how it is written anew.
pub fn store_as(value: &str, rewritten: Option<String>) -> (r: String)
    ensures
        r@ == stored_text(value@, text::opt_view(rewritten)),
{
    match rewritten {
        Some(s) => s,
        None => quote(value),
    }
}

/// JSON is stored as what it is, and any other text as a string of it.
pub proof fn values_are_stored(value: Seq<char>, json: Seq<char>)
    ensures
        stored_text(value, Some(json)) == json,
        stored_text(value, None) == json_quoted(value),
{
}

} // verus!
