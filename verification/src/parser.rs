//! The source scanner itself, and small shared judgements.

use vstd::prelude::*;

use crate::chars::{
    chars_to_string, eq_str, lower_chars, spec_find_char, spec_lower, str_concat, to_chars,
};

verus! {

/// The annotation scanner.  It holds no state: every method works from
/// the text it is handed.
#[derive(Debug)]
pub struct GoParser;

impl GoParser {
    pub fn new() -> (r: GoParser)
        ensures
            true,
    {
        GoParser
    }

    /// The full media type written for a shorthand, per
    /// `spec_normalize_mime`.
    pub fn normalize_mime_type(&self, mime_type: &str) -> (r: String)
        ensures
            r@ == spec_normalize_mime(mime_type@),
    {
        normalize_mime(mime_type)
    }
}

/// The full media type written for a shorthand: known short names map to
/// their media types; anything else is lower-cased and, unless it already
/// has a `/`, put under `application/`.
pub open spec fn spec_normalize_mime(s: Seq<char>) -> Seq<char> {
    let l = spec_lower(s);
    if l == "json"@ {
        "application/json"@
    } else if l == "xml"@ {
        "application/xml"@
    } else if l == "plain"@ || l == "text"@ {
        "text/plain"@
    } else if l == "html"@ {
        "text/html"@
    } else if l == "form"@ || l == "form-data"@ || l == "multipart"@ {
        "multipart/form-data"@
    } else if l == "form-urlencoded"@ || l == "urlencoded"@ {
        "application/x-www-form-urlencoded"@
    } else if l == "octet-stream"@ || l == "binary"@ {
        "application/octet-stream"@
    } else if spec_find_char(l, '/', 0) is Some {
        l
    } else {
        "application/"@ + l
    }
}

pub fn normalize_mime(s: &str) -> (r: String)
    ensures
        r@ == spec_normalize_mime(s@),
{
    let cs = to_chars(s);
    let l = lower_chars(&cs);
    if eq_str(&l, "json") {
        "application/json".to_owned()
    } else if eq_str(&l, "xml") {
        "application/xml".to_owned()
    } else if eq_str(&l, "plain") || eq_str(&l, "text") {
        "text/plain".to_owned()
    } else if eq_str(&l, "html") {
        "text/html".to_owned()
    } else if eq_str(&l, "form") || eq_str(&l, "form-data") || eq_str(&l, "multipart") {
        "multipart/form-data".to_owned()
    } else if eq_str(&l, "form-urlencoded") || eq_str(&l, "urlencoded") {
        "application/x-www-form-urlencoded".to_owned()
    } else if eq_str(&l, "octet-stream") || eq_str(&l, "binary") {
        "application/octet-stream".to_owned()
    } else {
        let ls = chars_to_string(&l);
        match crate::chars::find_char(&l, '/', 0) {
            Some(_) => ls,
            None => str_concat("application/", ls.as_str()),
        }
    }
}

} // verus!
