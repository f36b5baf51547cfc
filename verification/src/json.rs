//! Texts in JSON.

use crate::text::views;
use vstd::prelude::*;

verus! {

/// A text as a JSON string, in quotes and with its escapes.
pub uninterp spec fn json_string(text: Seq<char>) -> Seq<char>;

/// The text of a JSON string, if a text is one.
pub uninterp spec fn json_content(json: Seq<char>) -> Option<Seq<char>>;

/// The elements of a JSON array, each in compact JSON, if a text is one.
pub uninterp spec fn json_array(json: Seq<char>) -> Option<Seq<Seq<char>>>;

/// The text under a key, if there is one, of what a text holds in JSON, if it does.
pub uninterp spec fn json_field(json: Seq<char>, key: Seq<char>) -> Option<Option<Seq<char>>>;

/// The number under a key, if there is one, of what a text holds in JSON, if it does.
pub uninterp spec fn json_number(json: Seq<char>, key: Seq<char>) -> Option<Option<u64>>;

/// Calls `serde_json::to_string` on a text: the JSON string depends on the text alone, and
/// `serde_json::from_str` reads the text back from it. Which characters it escapes, and how,
/// is not stated.
#[verifier::external_body]
pub(crate) fn json_text(text: &str) -> (json: String)
    ensures
        json@ == json_string(text@),
        json_content(json@) == Some(text@),
{
    match serde_json::to_string(text) {
        Ok(json) => json,
        Err(_) => String::new(),
    }
}

/// Calls `serde_json::from_str` for a string: what it reads, and whether it is one, depends
/// on the text alone.
#[verifier::external_body]
pub(crate) fn json_unquoted(json: &str) -> (text: Option<String>)
    ensures
        match text {
            Some(text) => json_content(json@) == Some(text@),
            None => json_content(json@) is None,
        },
{
    match serde_json::from_str::<String>(json) {
        Ok(text) => Some(text),
        Err(_) => None,
    }
}

/// Calls `serde_json::from_str` for an array of values, and gives each as `Value::to_string`
/// writes it: the elements, and whether there are any, depend on the text alone.
#[verifier::external_body]
pub(crate) fn json_elements(json: &str) -> (elements: Option<Vec<String>>)
    ensures
        match elements {
            Some(elements) => json_array(json@) == Some(views(elements@)),
            None => json_array(json@) is None,
        },
{
    match serde_json::from_str::<Vec<serde_json::Value>>(json) {
        Ok(values) => Some(values.iter().map(|value| value.to_string()).collect()),
        Err(_) => None,
    }
}

/// Calls `serde_json::from_str` for a value, then `Value::get` and `Value::as_str`: the field
/// depends on the text and the key alone.
#[verifier::external_body]
pub(crate) fn json_text_at(json: &str, key: &str) -> (field: Option<Option<String>>)
    ensures
        match field {
            Some(Some(text)) => json_field(json@, key@) == Some(Some(text@)),
            Some(None) => json_field(json@, key@) == Some(None::<Seq<char>>),
            None => json_field(json@, key@) is None,
        },
{
    match serde_json::from_str::<serde_json::Value>(json) {
        Ok(value) => Some(
            value.get(key).and_then(serde_json::Value::as_str).map(str::to_owned),
        ),
        Err(_) => None,
    }
}

/// Calls `serde_json::from_str` for a value, then `Value::get` and `Value::as_u64`: the number
/// depends on the text and the key alone.
#[verifier::external_body]
pub(crate) fn json_number_at(json: &str, key: &str) -> (field: Option<Option<u64>>)
    ensures
        field == json_number(json@, key@),
{
    match serde_json::from_str::<serde_json::Value>(json) {
        Ok(value) => Some(value.get(key).and_then(serde_json::Value::as_u64)),
        Err(_) => None,
    }
}

} // verus!
