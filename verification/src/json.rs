//! The normalizer: the canonical form that `serde_json` gives to a JSON
//! document, and the text itself where it is no JSON document.

use vstd::prelude::*;

verus! {

/// A parsed JSON document. It is carried from the parser to the printer and
/// never looked into.
#[verifier::external_type_specification]
#[verifier::external_body]
pub struct ExJsonValue(serde_json::Value);

/// The reason why `serde_json` could not parse or print.
#[verifier::external_type_specification]
#[verifier::external_body]
pub struct ExJsonError(serde_json::Error);

/// What `serde_json::from_str` makes of `text` when asked for a
/// `serde_json::Value`: the document, or `None` where it reports an error.
pub uninterp spec fn parsed_json(text: Seq<char>) -> Option<serde_json::Value>;

/// What `serde_json::to_string_pretty` prints for `value`, or `None` where
/// it reports an error.
pub uninterp spec fn pretty_json(value: serde_json::Value) -> Option<Seq<char>>;

/// Calls `serde_json::from_str` for a `serde_json::Value`. The parser reads
/// nothing but `text`, so the contract gives its outcome a name and claims
/// nothing else of it.
#[verifier::external_body]
fn parse_json(text: &str) -> (parsed: Result<serde_json::Value, serde_json::Error>)
    ensures
        match parsed {
            Ok(value) => parsed_json(text@) == Some(value),
            Err(_) => parsed_json(text@) is None,
        },
{
    serde_json::from_str(text)
}

/// Calls `serde_json::to_string_pretty` on a parsed document. The printer
/// reads nothing but `value`, so the contract gives its outcome a name and
/// claims nothing else of it.
#[verifier::external_body]
fn print_json(value: &serde_json::Value) -> (printed: Result<String, serde_json::Error>)
    ensures
        match printed {
            Ok(text) => pretty_json(*value) == Some(text@),
            Err(_) => pretty_json(*value) is None,
        },
{
    serde_json::to_string_pretty(value)
}

/// The canonical form of a JSON document: what the printer prints for what
/// the parser read. `None` where `text` does not parse, or does not print.
pub open spec fn canonical_json(text: Seq<char>) -> Option<Seq<char>> {
    match parsed_json(text) {
        Some(value) => pretty_json(value),
        None => None,
    }
}

/// The text as it goes into a semantic diff: its canonical form where it
/// has one, else the text unchanged.
pub open spec fn normalized(text: Seq<char>) -> Seq<char> {
    match canonical_json(text) {
        Some(canonical) => canonical,
        None => text,
    }
}

/// The view of an optional string.
pub open spec fn text_of(text: Option<String>) -> Option<Seq<char>> {
    match text {
        Some(text) => Some(text@),
        None => None,
    }
}

/// Parses `input` as JSON and prints it again in canonical form; `None`
/// where it is no JSON document.
pub fn normalize_json(input: &str) -> (canonical: Option<String>)
    ensures
        text_of(canonical) == canonical_json(input@),
{
    match parse_json(input) {
        Ok(value) => match print_json(&value) {
            Ok(text) => Some(text),
            Err(_) => None,
        },
        Err(_) => None,
    }
}

/// Normalizes `text`: its canonical form where it is a JSON document, else
/// `text` itself.
pub fn normalize(text: &str) -> (out: String)
    ensures
        out@ == normalized(text@),
{
    match normalize_json(text) {
        Some(canonical) => canonical,
        None => text.to_owned(),
    }
}

} // verus!
