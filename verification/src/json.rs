//! Reading single values out of JSON documents whose shape is the vendor's.

use vstd::prelude::*;

verus! {

/// The value that a pointer leads to in a JSON document, as JSON text; nothing where the document
/// is no JSON or the pointer leads nowhere.
pub uninterp spec fn json_value(document: Seq<char>, pointer: Seq<char>) -> Option<Seq<char>>;

/// The value that a pointer leads to in a JSON document, as JSON text.
///
/// Calls `serde_json::from_str` for a `serde_json::Value`, `serde_json::Value::pointer` and the
/// value's `to_string`.
/// What comes out depends on the document and the pointer alone.
#[verifier::external_body]
pub(crate) fn json_at(document: &str, pointer: &str) -> (r: Option<String>)
    ensures
        r is Some == json_value(document@, pointer@) is Some,
        r matches Some(text) ==> json_value(document@, pointer@) == Some(text@),
{
    let value: serde_json::Value = serde_json::from_str(document).ok()?;
    value.pointer(pointer).map(|found| found.to_string())
}

/// The integer that a JSON text stands for; nothing where it stands for something else.
pub uninterp spec fn json_integer_value(text: Seq<char>) -> Option<i64>;

/// The integer that a JSON text stands for.
///
/// Calls `serde_json::from_str` for an `i64`.
/// What comes out depends on the text alone.
#[verifier::external_body]
pub(crate) fn json_integer(text: &str) -> (r: Option<i64>)
    ensures
        r == json_integer_value(text@),
{
    serde_json::from_str(text).ok()
}

/// The text that a JSON string stands for; nothing where it is no string.
pub uninterp spec fn json_string_value(text: Seq<char>) -> Option<Seq<char>>;

/// The text that a JSON string stands for.
///
/// Calls `serde_json::from_str` for a `String`.
/// What comes out depends on the text alone.
#[verifier::external_body]
pub(crate) fn json_string(text: &str) -> (r: Option<String>)
    ensures
        r is Some == json_string_value(text@) is Some,
        r matches Some(s) ==> json_string_value(text@) == Some(s@),
{
    serde_json::from_str(text).ok()
}

/// The integer a pointer leads to.
pub open spec fn integer_at_of(document: Seq<char>, pointer: Seq<char>) -> Option<i64> {
    match json_value(document, pointer) {
        Some(text) => json_integer_value(text),
        None => None,
    }
}

/// The integer a pointer leads to.
pub fn integer_at(document: &str, pointer: &str) -> (r: Option<i64>)
    ensures
        r == integer_at_of(document@, pointer@),
{
    match json_at(document, pointer) {
        Some(text) => json_integer(text.as_str()),
        None => None,
    }
}

/// The text a pointer leads to.
pub open spec fn string_at_of(document: Seq<char>, pointer: Seq<char>) -> Option<Seq<char>> {
    match json_value(document, pointer) {
        Some(text) => json_string_value(text),
        None => None,
    }
}

/// The text a pointer leads to.
pub fn string_at(document: &str, pointer: &str) -> (r: Option<String>)
    ensures
        crate::text::text_of(r) == string_at_of(document@, pointer@),
{
    match json_at(document, pointer) {
        Some(text) => json_string(text.as_str()),
        None => None,
    }
}

} // verus!
