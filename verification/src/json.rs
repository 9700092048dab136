//! JSON: the calls into the `serde_json` crate.

use serde_json::Value;
use vstd::prelude::*;

verus! {

/// A JSON value. Nothing is known of its inside but what [`json_value`] says.
#[verifier::external_type_specification]
#[verifier::external_body]
pub struct ExValue(Value);

/// What a JSON value is, as far as it is read here: numbers are not told
/// apart.
pub enum Json {
    Null,
    Bool(bool),
    Number,
    Text(Seq<char>),
    List(Seq<Json>),
    Object(Map<Seq<char>, Json>),
}

/// What a value of `serde_json` stands for.
pub uninterp spec fn json_value(v: Value) -> Json;

/// What `serde_json::from_str` makes of a text: a value, or the text of its
/// error.
pub uninterp spec fn json_of(text: Seq<char>) -> Result<Json, Seq<char>>;

/// How `serde_json` writes an object with one member, which is a string.
pub uninterp spec fn json_member_text(key: Seq<char>, value: Seq<char>) -> Seq<char>;

/// What a list of values stands for.
pub open spec fn json_values(list: Seq<Value>) -> Seq<Json> {
    Seq::new(list.len(), |i: int| json_value(list[i]))
}

/// The string under a key of an object.
pub open spec fn member_text(j: Json, key: Seq<char>) -> Option<Seq<char>> {
    match j {
        Json::Object(members) => if members.contains_key(key) {
            match members[key] {
                Json::Text(text) => Some(text),
                _ => None,
            }
        } else {
            None
        },
        _ => None,
    }
}

/// Reads a text as JSON. The call is `serde_json::from_str`: its result
/// depends on the text alone.
#[verifier::external_body]
pub(crate) fn parse(text: &str) -> (r: Result<Value, String>)
    ensures
        json_of(text@) == (match r {
            Ok(v) => Ok(json_value(v)),
            Err(message) => Err(message@),
        }),
{
    serde_json::from_str(text).map_err(|e| e.to_string())
}

/// The elements of a value that is a list. The call is `Value::as_array`,
/// which gives none for anything else.
#[verifier::external_body]
pub(crate) fn elements(v: &Value) -> (r: Option<&Vec<Value>>)
    ensures
        match r {
            Some(list) => json_value(*v) == Json::List(json_values(list@)),
            None => !(json_value(*v) is List),
        },
{
    v.as_array()
}

/// The member of a value under a key. The call is `Value::get` with a string:
/// it gives none for anything but an object, and for an object without the
/// key.
#[verifier::external_body]
pub(crate) fn member<'a>(v: &'a Value, key: &str) -> (r: Option<&'a Value>)
    ensures
        match r {
            Some(m) => json_value(*v) is Object && json_value(*v)->Object_0.contains_key(key@)
                && json_value(*v)->Object_0[key@] == json_value(*m),
            None => json_value(*v) is Object ==> !json_value(*v)->Object_0.contains_key(key@),
        },
{
    v.get(key)
}

/// The text of a value that is a string. The call is `Value::as_str`, which
/// gives none for anything else.
#[verifier::external_body]
pub(crate) fn string(v: &Value) -> (r: Option<&str>)
    ensures
        match r {
            Some(s) => json_value(*v) == Json::Text(s@),
            None => !(json_value(*v) is Text),
        },
{
    v.as_str()
}

/// Writes an object with one member, which is a string. The call is the
/// `Display` of a `Value`: its result depends on the key and the string alone,
/// and, for the key that is used here, reading it gives the object back.
#[verifier::external_body]
pub(crate) fn write_member(key: &str, value: &str) -> (r: String)
    ensures
        r@ == json_member_text(key@, value@),
        key@ == "text"@ ==> json_of(r@) is Ok && json_of(r@)->Ok_0 == Json::Object(
            Map::empty().insert(key@, Json::Text(value@)),
        ),
{
    let mut members = serde_json::Map::new();
    members.insert(key.to_string(), Value::String(value.to_string()));
    Value::Object(members).to_string()
}

} // verus!
