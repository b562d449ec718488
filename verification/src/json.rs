//! Reading the JSON that the browser answers with.
//!
//! A value is named by a pointer, such as `/request/url`. What `serde_json`
//! finds there is trusted: each function says what is claimed of it.

use crate::text::maybe;
use vstd::prelude::*;

verus! {

/// The text that `serde_json` finds in a document, at a pointer.
pub uninterp spec fn json_string_at(json: Seq<char>, pointer: Seq<char>) -> Option<Seq<char>>;

/// `serde_json::from_str`, `Value::pointer` and `Value::as_str`: the same
/// document and pointer give the same text, or none.
#[verifier::external_body]
pub(crate) fn text_at(json: &str, pointer: &str) -> (text: Option<String>)
    ensures
        maybe(text) == json_string_at(json@, pointer@),
{
    let value: serde_json::Value = serde_json::from_str(json).ok()?;
    value.pointer(pointer)?.as_str().map(|text| text.to_string())
}

/// The whole number that `serde_json` finds in a document, at a pointer.
pub uninterp spec fn json_number_at(json: Seq<char>, pointer: Seq<char>) -> Option<u64>;

/// `serde_json::from_str`, `Value::pointer` and `Value::as_u64`: the same
/// document and pointer give the same number, or none.
#[verifier::external_body]
pub(crate) fn number_at(json: &str, pointer: &str) -> (number: Option<u64>)
    ensures
        number == json_number_at(json@, pointer@),
{
    let value: serde_json::Value = serde_json::from_str(json).ok()?;
    value.pointer(pointer)?.as_u64()
}

/// The truth value that `serde_json` finds in a document, at a pointer.
pub uninterp spec fn json_flag_at(json: Seq<char>, pointer: Seq<char>) -> Option<bool>;

/// `serde_json::from_str`, `Value::pointer` and `Value::as_bool`: the same
/// document and pointer give the same truth value, or none.
#[verifier::external_body]
pub(crate) fn flag_at(json: &str, pointer: &str) -> (flag: Option<bool>)
    ensures
        flag == json_flag_at(json@, pointer@),
{
    let value: serde_json::Value = serde_json::from_str(json).ok()?;
    value.pointer(pointer)?.as_bool()
}

/// Whether `serde_json` finds anything in a document, at a pointer.
pub uninterp spec fn json_holds(json: Seq<char>, pointer: Seq<char>) -> bool;

/// `serde_json::from_str` and `Value::pointer`: the same document and pointer
/// give the same answer to whether anything is there.
#[verifier::external_body]
pub(crate) fn holds_at(json: &str, pointer: &str) -> (yes: bool)
    ensures
        yes == json_holds(json@, pointer@),
{
    let value: Result<serde_json::Value, serde_json::Error> = serde_json::from_str(json);
    value.is_ok_and(|value| value.pointer(pointer).is_some())
}

/// A member of an object: its name, and its value where that is a text.
#[derive(Debug, PartialEq, Eq)]
pub struct Member {
    pub name: String,
    pub text: Option<String>,
}

/// The members of a list, by the characters they hold.
pub open spec fn members_of(list: Seq<Member>) -> Seq<(Seq<char>, Option<Seq<char>>)> {
    list.map_values(|member: Member| (member.name@, maybe(member.text)))
}

/// The members of the object that `serde_json` finds in a document, at a
/// pointer, in its order.
pub uninterp spec fn json_members_at(json: Seq<char>, pointer: Seq<char>) -> Option<
    Seq<(Seq<char>, Option<Seq<char>>)>,
>;

/// `serde_json::from_str`, `Value::pointer`, `Value::as_object` and, for each
/// member, `Value::as_str`: the same document and pointer give the same members,
/// or none where there is no object.
#[verifier::external_body]
pub(crate) fn members_at(json: &str, pointer: &str) -> (members: Option<Vec<Member>>)
    ensures
        match members {
            Some(members) => json_members_at(json@, pointer@) == Some(members_of(members@)),
            None => json_members_at(json@, pointer@) is None,
        },
{
    let value: serde_json::Value = serde_json::from_str(json).ok()?;
    let object = value.pointer(pointer)?.as_object()?;
    Some(object.iter().map(|(name, value)| Member {
        name: name.clone(),
        text: value.as_str().map(|text| text.to_string()),
    }).collect())
}

} // verus!
