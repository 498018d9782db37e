//! JSON documents as the backends send them, read through `serde_json`: a
//! document keeps the text it was parsed from, and a value is looked up by
//! its JSON Pointer (RFC 6901).
use crate::hits::{Field, FieldView};
use vstd::prelude::*;

verus! {

#[verifier::external_type_specification]
#[verifier::external_body]
pub struct ExJsonValue(serde_json::Value);

/// A parsed JSON text.
pub struct JsonDoc {
    text: String,
    value: serde_json::Value,
}

impl View for JsonDoc {
    type V = Seq<char>;

    /// The text the document was parsed from.
    closed spec fn view(&self) -> Seq<char> {
        self.text@
    }
}

/// The name for whether `serde_json::from_str` reads a JSON value from a text.
pub uninterp spec fn json_parses(text: Seq<char>) -> bool;

/// `serde_json::from_str::<serde_json::Value>`: the document, or the parser's
/// message when the text is not JSON.
#[verifier::external_body]
pub(crate) fn parse_json(text: &str) -> (r: Result<JsonDoc, String>)
    ensures
        r is Ok <==> json_parses(text@),
        r matches Ok(d) ==> d@ == text@,
{
    match serde_json::from_str::<serde_json::Value>(text) {
        Ok(value) => Ok(JsonDoc { text: text.to_string(), value }),
        Err(e) => Err(e.to_string()),
    }
}

/// The name for what `serde_json::Value::pointer` finds at a JSON Pointer in
/// the value parsed from a text: nothing, a string, or another value.
pub uninterp spec fn json_pointer(text: Seq<char>, ptr: Seq<char>) -> FieldView;

/// `pointer(ptr)` on the document, then `as_str`.
#[verifier::external_body]
pub(crate) fn json_field(doc: &JsonDoc, ptr: &str) -> (r: Field)
    ensures
        r@ == json_pointer(doc@, ptr@),
{
    match doc.value.pointer(ptr) {
        None => Field::Absent,
        Some(serde_json::Value::String(s)) => Field::Text(s.clone()),
        Some(_) => Field::Other,
    }
}

/// The name for the length of the array that `serde_json::Value::pointer`
/// finds at a JSON Pointer in the value parsed from a text; nothing when no
/// array is there.
pub uninterp spec fn json_array_len(text: Seq<char>, ptr: Seq<char>) -> Option<nat>;

/// `pointer(ptr)` on the document, then `as_array` and `len`.
#[verifier::external_body]
pub(crate) fn json_len(doc: &JsonDoc, ptr: &str) -> (r: Option<usize>)
    ensures
        match r {
            Some(n) => json_array_len(doc@, ptr@) == Some(n as nat),
            None => json_array_len(doc@, ptr@) is None,
        },
{
    doc.value.pointer(ptr).and_then(|v| v.as_array()).map(|a| a.len())
}

} // verus!
