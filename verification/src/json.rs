//! JSON values as the library sees them: a model of `serde_json::Value` and
//! the calls into `serde_json` that build values and take them apart.

use vstd::prelude::*;

verus! {

#[verifier::external_type_specification]
#[verifier::external_body]
pub struct ExValue(serde_json::Value);

/// What a JSON value is. A number is held by the text that prints it.
pub enum Json {
    Null,
    Bool(bool),
    Number(Seq<char>),
    Text(Seq<char>),
    List(Seq<Json>),
    Object(Map<Seq<char>, Json>),
}

/// What a `serde_json::Value` holds.
pub uninterp spec fn json_of(value: serde_json::Value) -> Json;

/// The value that some bytes denote, where `serde_json::from_slice` can read
/// them.
pub uninterp spec fn json_parsed(bytes: Seq<u8>) -> Option<Json>;

/// The contents of a list of values.
pub open spec fn json_items(values: Seq<serde_json::Value>) -> Seq<Json> {
    values.map_values(|v: serde_json::Value| json_of(v))
}

/// The fields that a list of key-value pairs makes: of two pairs with one key
/// the later one counts.
pub open spec fn json_fields(pairs: Seq<(String, serde_json::Value)>) -> Map<Seq<char>, Json>
    decreases pairs.len(),
{
    if pairs.len() == 0 {
        Map::empty()
    } else {
        json_fields(pairs.drop_last()).insert(pairs.last().0@, json_of(pairs.last().1))
    }
}

/// The value under `key`, where `j` is an object that has the key.
pub open spec fn json_field(j: Json, key: Seq<char>) -> Option<Json> {
    match j {
        Json::Object(fields) => if fields.contains_key(key) {
            Some(fields[key])
        } else {
            None
        },
        _ => None,
    }
}

/// The value at `index`, where `j` is a list that long.
pub open spec fn json_item(j: Json, index: int) -> Option<Json> {
    match j {
        Json::List(items) => if 0 <= index < items.len() {
            Some(items[index])
        } else {
            None
        },
        _ => None,
    }
}

/// Bytes that read as one digit, a point and one digit.
pub open spec fn is_tenths(bytes: Seq<u8>) -> bool {
    &&& bytes.len() == 3
    &&& 48 <= bytes[0] <= 57
    &&& bytes[1] == 46
    &&& 48 <= bytes[2] <= 57
}

/// `Value::from` on a `String`: a text value with these characters.
#[verifier::external_body]
pub(crate) fn text_value(text: &str) -> (value: serde_json::Value)
    ensures
        json_of(value) == Json::Text(text@),
{
    serde_json::Value::from(text.to_string())
}

/// `Value::from` on a `Vec<Value>`: a list value with these items in this order.
#[verifier::external_body]
pub(crate) fn list_value(items: Vec<serde_json::Value>) -> (value: serde_json::Value)
    ensures
        json_of(value) == Json::List(json_items(items@)),
{
    serde_json::Value::from(items)
}

/// `Value::from_iter` on key-value pairs: an object value with these fields,
/// where of two pairs with one key the later one counts.
#[verifier::external_body]
pub(crate) fn object_value(pairs: Vec<(String, serde_json::Value)>) -> (value: serde_json::Value)
    ensures
        json_of(value) == Json::Object(json_fields(pairs@)),
{
    serde_json::Value::from_iter(pairs)
}

/// `serde_json::from_slice` into a `Value`: whether it succeeds, and with what
/// value, depends on the bytes alone. A number of one digit, a point and one
/// digit is read as the number that prints as that text.
#[verifier::external_body]
pub(crate) fn parse_value(bytes: &[u8]) -> (value: Option<serde_json::Value>)
    ensures
        match value {
            Some(v) => json_parsed(bytes@) == Some(json_of(v)),
            None => json_parsed(bytes@) is None,
        },
        is_tenths(bytes@) ==> value is Some && json_of(value->0) == Json::Number(
            bytes@.map_values(|b: u8| b as char),
        ),
{
    serde_json::from_slice::<serde_json::Value>(bytes).ok()
}

/// `Value::get` with a string: the field of that name, where the value is an
/// object that has it.
#[verifier::external_body]
pub(crate) fn value_field<'a>(value: &'a serde_json::Value, key: &str) -> (field: Option<
    &'a serde_json::Value,
>)
    ensures
        match field {
            Some(f) => json_field(json_of(*value), key@) == Some(json_of(*f)),
            None => json_field(json_of(*value), key@) is None,
        },
{
    value.get(key)
}

/// `Value::get` with an index: the item there, where the value is a list that
/// long.
#[verifier::external_body]
pub(crate) fn value_item(value: &serde_json::Value, index: usize) -> (item: Option<
    &serde_json::Value,
>)
    ensures
        match item {
            Some(i) => json_item(json_of(*value), index as int) == Some(json_of(*i)),
            None => json_item(json_of(*value), index as int) is None,
        },
{
    value.get(index)
}

/// `Value::as_str`: the text, where the value is one.
#[verifier::external_body]
pub(crate) fn value_text(value: &serde_json::Value) -> (text: Option<&str>)
    ensures
        match text {
            Some(t) => json_of(*value) == Json::Text(t@),
            None => !(json_of(*value) is Text),
        },
{
    value.as_str()
}

} // verus!
