//! Reading JSON text value by value.
use serde_json::Value;
use vstd::prelude::*;

verus! {

/// The text of an optional string.
pub open spec fn opt_text(value: Option<String>) -> Option<Seq<char>> {
    match value {
        Some(text) => Some(text@),
        None => None,
    }
}

/// The text of the member `key` of the JSON object `text`, if it is one and has
/// such a member.
pub uninterp spec fn json_member_of(text: Seq<char>, key: Seq<char>) -> Option<Seq<char>>;

/// What the JSON string `text` holds, if it is one.
pub uninterp spec fn json_string_of(text: Seq<char>) -> Option<Seq<char>>;

/// The value of the JSON number `text`, if it is one and fits.
pub uninterp spec fn json_unsigned_of(text: Seq<char>) -> Option<u64>;

/// The texts of the elements of the JSON array `text`, if it is one.
pub uninterp spec fn json_elements_of(text: Seq<char>) -> Option<Seq<Seq<char>>>;

/// `serde_json::from_str` and `Value::get` with a string: the member `key` of the
/// object that `text` stands for, rendered as JSON again. Nothing is claimed of
/// which texts are JSON, nor of how a member is rendered.
#[verifier::external_body]
pub(crate) fn json_member(text: &str, key: &str) -> (result: Option<String>)
    ensures
        opt_text(result) == json_member_of(text@, key@),
{
    let value: Value = serde_json::from_str(text).ok()?;
    value.get(key).map(|member| member.to_string())
}

/// `serde_json::from_str` and `Value::as_str`: the contents of the JSON string
/// that `text` stands for. Nothing is claimed of which texts are JSON strings.
#[verifier::external_body]
pub(crate) fn json_string(text: &str) -> (result: Option<String>)
    ensures
        opt_text(result) == json_string_of(text@),
{
    let value: Value = serde_json::from_str(text).ok()?;
    value.as_str().map(|contents| contents.to_string())
}

/// `serde_json::from_str` and `Value::as_u64`: the number that `text` stands for,
/// where it is a whole one within the range. Nothing is claimed of which texts
/// are numbers.
#[verifier::external_body]
pub(crate) fn json_unsigned(text: &str) -> (result: Option<u64>)
    ensures
        result == json_unsigned_of(text@),
{
    let value: Value = serde_json::from_str(text).ok()?;
    value.as_u64()
}

/// `serde_json::from_str` and `Value::as_array`: the elements of the array that
/// `text` stands for, each rendered as JSON again. Nothing is claimed of which
/// texts are arrays.
#[verifier::external_body]
pub(crate) fn json_elements(text: &str) -> (result: Option<Vec<String>>)
    ensures
        match result {
            Some(elements) => json_elements_of(text@) == Some(crate::table::texts(elements@)),
            None => json_elements_of(text@) is None && result is None,
        },
{
    let value: Value = serde_json::from_str(text).ok()?;
    value.as_array().map(|items| items.iter().map(|item| item.to_string()).collect())
}

/// What the string member `key` of the JSON object `text` holds.
pub open spec fn member_string(text: Seq<char>, key: Seq<char>) -> Option<Seq<char>> {
    match json_member_of(text, key) {
        Some(member) => json_string_of(member),
        None => None,
    }
}

/// What the string member `key` of the JSON object `text` holds.
pub fn read_member_string(text: &str, key: &str) -> (result: Option<String>)
    ensures
        opt_text(result) == member_string(text@, key@),
{
    match json_member(text, key) {
        Some(member) => json_string(member.as_str()),
        None => None,
    }
}

/// The value of the number member `key` of the JSON object `text`.
pub open spec fn member_unsigned(text: Seq<char>, key: Seq<char>) -> Option<u64> {
    match json_member_of(text, key) {
        Some(member) => json_unsigned_of(member),
        None => None,
    }
}

/// The value of the number member `key` of the JSON object `text`.
pub fn read_member_unsigned(text: &str, key: &str) -> (result: Option<u64>)
    ensures
        result == member_unsigned(text@, key@),
{
    match json_member(text, key) {
        Some(member) => json_unsigned(member.as_str()),
        None => None,
    }
}

/// A member that is missing gives neither a text nor a number, and one that is there gives
/// what it holds.
pub proof fn lemma_missing_member_gives_nothing(text: Seq<char>, key: Seq<char>)
    ensures
        json_member_of(text, key) is None ==> member_string(text, key) is None && member_unsigned(
            text,
            key,
        ) is None,
        json_member_of(text, key) matches Some(member) ==> member_string(text, key)
            == json_string_of(member) && member_unsigned(text, key) == json_unsigned_of(member),
{
}

} // verus!
