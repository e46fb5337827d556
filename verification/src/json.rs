use serde_json::Value;
use vstd::prelude::*;

use crate::text::str_eq;

verus! {

/// A JSON document as the library reads it. Numbers are kept as their text; the keys of
/// an object are distinct where the document comes from a JSON parser.
#[derive(Debug)]
pub enum Json {
    Null,
    Bool(bool),
    Number(String),
    Str(String),
    Array(Vec<Json>),
    Object(Vec<(String, Json)>),
}

#[verifier::external_type_specification]
#[verifier::external_body]
pub struct ExJsonValue(Value);

/// What `serde_json::from_str::<Value>` makes of a text, as a `Json`: nothing where the
/// text is not one JSON document.
pub uninterp spec fn parsed_json(text: Seq<char>) -> Option<Json>;

/// Converts a serde_json value one for one: a number becomes its text as serde_json writes
/// it (digits alone for a non-negative integer, a leading `-` for a negative one, a `.` or
/// an exponent for any other), an object its entries in the map's order.
#[verifier::external_body]
fn json_of(v: Value) -> Json {
    match v {
        Value::Null => Json::Null,
        Value::Bool(b) => Json::Bool(b),
        Value::Number(n) => Json::Number(n.to_string()),
        Value::String(s) => Json::Str(s),
        Value::Array(items) => Json::Array(items.into_iter().map(json_of).collect()),
        Value::Object(map) => Json::Object(map.into_iter().map(|(k, x)| (k, json_of(x))).collect()),
    }
}

/// Calls `serde_json::from_str::<Value>` and converts the value; the claim is that the
/// result depends on the text alone.
#[verifier::external_body]
pub(crate) fn parse_json(text: &str) -> (res: Option<Json>)
    ensures
        res == parsed_json(text@),
{
    serde_json::from_str::<Value>(text).ok().map(json_of)
}

/// The value of the first entry named `key`.
pub open spec fn field_of(entries: Seq<(String, Json)>, key: Seq<char>) -> Option<Json>
    decreases entries.len(),
{
    if entries.len() == 0 {
        None
    } else if entries[0].0@ == key {
        Some(entries[0].1)
    } else {
        field_of(entries.drop_first(), key)
    }
}

/// The member `key` of an object; nothing for any other value.
pub open spec fn member(v: Json, key: Seq<char>) -> Option<Json> {
    match v {
        Json::Object(entries) => field_of(entries@, key),
        _ => None,
    }
}

/// `v[key]`: the member `key` of an object, and `null` where there is none.
pub open spec fn at_key(v: Json, key: Seq<char>) -> Json {
    match member(v, key) {
        Some(x) => x,
        None => Json::Null,
    }
}

/// The element at position `i` of an array; nothing for any other value.
pub open spec fn element(v: Json, i: int) -> Option<Json> {
    match v {
        Json::Array(items) => if 0 <= i < items@.len() {
            Some(items@[i])
        } else {
            None
        },
        _ => None,
    }
}

/// The text of a string; nothing for any other value.
pub open spec fn as_text(v: Json) -> Option<Seq<char>> {
    match v {
        Json::Str(s) => Some(s@),
        _ => None,
    }
}

/// The position of the first entry named `key`.
pub fn find_field(entries: &Vec<(String, Json)>, key: &str) -> (res: Option<usize>)
    ensures
        match res {
            Some(i) => i < entries@.len() && field_of(entries@, key@) == Some(entries@[i as int].1),
            None => field_of(entries@, key@) is None,
        },
{
    let mut i: usize = 0;
    assert(entries@.subrange(0, entries@.len() as int) == entries@);
    while i < entries.len()
        invariant
            i <= entries@.len(),
            field_of(entries@, key@) == field_of(entries@.subrange(i as int, entries@.len() as int), key@),
        decreases entries.len() - i,
    {
        let ghost rest = entries@.subrange(i as int, entries@.len() as int);
        assert(rest[0] == entries@[i as int]);
        if str_eq(entries[i].0.as_str(), key) {
            return Some(i);
        }
        assert(rest.drop_first() == entries@.subrange(i + 1, entries@.len() as int));
        i = i + 1;
    }
    None
}

/// The value of the first entry named `key`, taken out of the entries.
pub fn take_field(entries: Vec<(String, Json)>, key: &str) -> (res: Option<Json>)
    ensures
        res == field_of(entries@, key@),
{
    match find_field(&entries, key) {
        Some(i) => {
            let mut entries = entries;
            let (_, value) = entries.remove(i);
            Some(value)
        },
        None => None,
    }
}

} // verus!
