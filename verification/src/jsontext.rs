//! Judgements on raw JSON text, made by serde_json behind exact names.
//!
//! Example values travel through the model as raw JSON text; whether a
//! fragment parses, and how a plain string is written as a JSON string
//! literal, are serde_json's decisions.

use vstd::prelude::*;

verus! {

/// Whether the text parses as one JSON value.
pub uninterp spec fn json_is_valid(s: Seq<char>) -> bool;

/// Whether the text parses as one JSON value.
///
/// Relies on serde_json::from_str::<Value>: the outcome is a function of
/// the input text alone.
#[verifier::external_body]
pub fn json_parses(s: &str) -> (r: bool)
    ensures
        r == json_is_valid(s@),
{
    serde_json::from_str::<serde_json::Value>(s).is_ok()
}

/// The JSON string literal that writes the given text.
pub uninterp spec fn json_string_of(s: Seq<char>) -> Seq<char>;

/// Writes the text as a JSON string literal.
///
/// Relies on serde_json::to_string on &str: it escapes the text and
/// wraps it in quotes, and its outcome is a function of the text alone;
/// on a plain string it does not fail.
#[verifier::external_body]
pub fn encode_json_string(s: &str) -> (r: String)
    ensures
        r@ == json_string_of(s@),
{
    match serde_json::to_string(s) {
        Ok(t) => t,
        Err(_) => String::new(),
    }
}

} // verus!
