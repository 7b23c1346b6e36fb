//! What the library takes from `serde_json`: JSON objects and values, and the
//! few operations on them that reading a ruleset and writing a response need.
//!
//! The functions here are not proved. Each states what the function of
//! `serde_json` that it calls does to the members of an object or finds in a value.

use serde_json::Value;

use vstd::prelude::*;

verus! {

/// A JSON value of `serde_json`.
#[verifier::external_type_specification]
#[verifier::external_body]
pub struct ExValue(serde_json::Value);

/// The object type of `serde_json`, a map from member names to values.
#[verifier::external_type_specification]
#[verifier::external_body]
#[verifier::reject_recursive_types(K)]
#[verifier::reject_recursive_types(V)]
pub struct ExObject<K, V>(serde_json::Map<K, V>);

/// The members of a JSON object by name.
pub uninterp spec fn members(object: serde_json::Map<String, Value>) -> Map<Seq<char>, Value>;

/// The members of a value that is an object; none for any other value.
pub uninterp spec fn value_members(value: Value) -> Map<Seq<char>, Value>;

/// The members of an object that has none.
pub open spec fn no_members() -> Map<Seq<char>, Value> {
    Map::empty()
}

/// The characters of a value that is a string.
pub uninterp spec fn value_text(value: Value) -> Option<Seq<char>>;

/// The number of a value that is an integer in the range of `i64`.
pub uninterp spec fn value_integer(value: Value) -> Option<i64>;

/// `Value::as_str`: the string inside the value, if it is a string.
pub assume_specification[ Value::as_str ](value: &Value) -> (r: Option<&str>)
    ensures
        match r {
            Some(text) => value_text(*value) == Some(text@),
            None => value_text(*value) is None,
        },
;

/// `Value::as_i64`: the integer inside the value, if it is a number that is an
/// integer in the range of `i64`.
pub assume_specification[ Value::as_i64 ](value: &Value) -> (r: Option<i64>)
    ensures
        r == value_integer(*value),
;

/// `Map::get` of `serde_json`: the member with the given name.
#[verifier::external_body]
pub(crate) fn object_member<'a>(object: &'a serde_json::Map<String, Value>, name: &str) -> (r: Option<&'a Value>)
    ensures
        match r {
            Some(value) => members(*object).contains_key(name@) && *value == members(*object)[name@],
            None => !members(*object).contains_key(name@),
        },
{
    object.get(name)
}

/// `Value::get` with a string index: the member with the given name of a value
/// that is an object, and nothing for any other value.
#[verifier::external_body]
pub(crate) fn value_member<'a>(value: &'a Value, name: &str) -> (r: Option<&'a Value>)
    ensures
        match r {
            Some(found) => value_members(*value).contains_key(name@) && *found == value_members(*value)[name@],
            None => !value_members(*value).contains_key(name@),
        },
{
    value.get(name)
}

/// `Map::new` of `serde_json`: an object without members.
#[verifier::external_body]
pub(crate) fn empty_object() -> (r: serde_json::Map<String, Value>)
    ensures
        members(r) == no_members(),
{
    serde_json::Map::new()
}

/// `Map::insert` of `serde_json`: sets one member and leaves the others.
#[verifier::external_body]
pub(crate) fn set_member(object: &mut serde_json::Map<String, Value>, name: String, value: Value)
    ensures
        members(*final(object)) == members(*old(object)).insert(name@, value),
{
    object.insert(name, value);
}

/// `Value::String`: a value that is a string.
#[verifier::external_body]
pub(crate) fn text_value(text: String) -> (r: Value)
    ensures
        value_text(r) == Some(text@),
        value_integer(r) is None,
        value_members(r) == no_members(),
{
    Value::String(text)
}

/// `Value::Object`: a value that is an object.
#[verifier::external_body]
pub(crate) fn object_value(object: serde_json::Map<String, Value>) -> (r: Value)
    ensures
        value_members(r) == members(object),
        value_text(r) is None,
        value_integer(r) is None,
{
    Value::Object(object)
}

} // verus!
