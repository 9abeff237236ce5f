//! What the scanners learn from `serde_json`.
use vstd::prelude::*;

verus! {

/// The text of the first JSON value that `serde_json`'s stream deserializer
/// reads from `text`, or `None` when it reads no value or reports an error.
pub uninterp spec fn leading_json_value(text: Seq<char>) -> Option<Seq<char>>;

/// Runs `serde_json::Deserializer::from_str(text).into_iter::<Box<RawValue>>()`
/// and takes the first item (`StreamDeserializer::next`).
///
/// Claimed of it: the result is [`leading_json_value`] of `text`; and when
/// `text` starts with `{` or `[`, a value that was read is a non-empty
/// prefix of `text` (the stream skips only JSON whitespace before a value,
/// and `RawValue` borrows exactly the bytes of the value it read).
#[verifier::external_body]
pub(crate) fn first_json_value(text: &[char]) -> (r: Option<String>)
    ensures
        r.deep_view() == leading_json_value(text@),
        text@.len() > 0 && (text@[0] == '{' || text@[0] == '[') ==> (r matches Some(t) ==> 0
            < t@.len() <= text@.len() && text@.subrange(0, t@.len() as int) == t@),
{
    let s: String = text.iter().collect();
    let mut stream = serde_json::Deserializer::from_str(&s).into_iter::<
        Box<serde_json::value::RawValue>,
    >();
    match stream.next() {
        Some(Ok(raw)) => Some(raw.get().to_string()),
        _ => None,
    }
}

/// The members of the JSON object that `text` holds, by key in ascending
/// order (a repeated key keeps its last value), each value as its JSON text;
/// `None` when `text` is not one JSON object (surrounding whitespace aside).
pub uninterp spec fn json_object_members(text: Seq<char>) -> Option<Seq<(Seq<char>, Seq<char>)>>;

/// Runs `serde_json::from_str::<BTreeMap<String, Box<RawValue>>>(text)`.
///
/// Claimed of it: the result is [`json_object_members`] of `text`, the map
/// taken as its (key, value text) pairs in key order.
#[verifier::external_body]
pub(crate) fn parse_json_object(text: &str) -> (r: Option<Vec<(String, String)>>)
    ensures
        r.deep_view() == json_object_members(text@),
{
    match serde_json::from_str::<
        std::collections::BTreeMap<String, Box<serde_json::value::RawValue>>,
    >(text) {
        Ok(members) => Some(members.into_iter().map(|(k, v)| (k, v.get().to_string())).collect()),
        Err(_) => None,
    }
}

/// The elements of the JSON array that `text` holds, each as its JSON text;
/// `None` when `text` is not one JSON array (surrounding whitespace aside).
pub uninterp spec fn json_array_elements(text: Seq<char>) -> Option<Seq<Seq<char>>>;

/// Runs `serde_json::from_str::<Vec<Box<RawValue>>>(text)`.
///
/// Claimed of it: the result is [`json_array_elements`] of `text`.
#[verifier::external_body]
pub(crate) fn parse_json_array(text: &str) -> (r: Option<Vec<String>>)
    ensures
        r.deep_view() == json_array_elements(text@),
{
    match serde_json::from_str::<Vec<Box<serde_json::value::RawValue>>>(text) {
        Ok(items) => Some(items.into_iter().map(|v| v.get().to_string()).collect()),
        Err(_) => None,
    }
}

/// The string that the JSON string literal `text` denotes (escapes
/// resolved); `None` when `text` is not one JSON string.
pub uninterp spec fn json_string_value(text: Seq<char>) -> Option<Seq<char>>;

/// Runs `serde_json::from_str::<String>(text)`.
///
/// Claimed of it: the result is [`json_string_value`] of `text`.
#[verifier::external_body]
pub(crate) fn parse_json_string(text: &str) -> (r: Option<String>)
    ensures
        r.deep_view() == json_string_value(text@),
{
    serde_json::from_str::<String>(text).ok()
}

} // verus!
