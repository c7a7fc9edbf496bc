//! JSON values as the database reports them, and the lookups the library
//! makes in them.
use vstd::prelude::*;

use crate::text::str_eq;

verus! {

/// A JSON number: its value as an `i64` when it is an integer in that
/// range, and its text as an `f64` (the form a float literal is written in).
#[derive(Debug, Clone)]
pub struct JsonNumber {
    pub int: Option<i64>,
    pub float_text: String,
}

/// One entry of a JSON object.
#[derive(Debug)]
pub struct JsonEntry {
    pub key: String,
    pub value: Json,
}

/// A JSON value. An object lists its entries; their keys are distinct.
#[derive(Debug)]
pub enum Json {
    Null,
    Bool(bool),
    Number(JsonNumber),
    Str(String),
    Array(Vec<Json>),
    Object(Vec<JsonEntry>),
}

/// The value stored under `key` among `entries`.
pub open spec fn entry_value(entries: Seq<JsonEntry>, key: Seq<char>) -> Option<Json>
    decreases entries.len(),
{
    if entries.len() == 0 {
        None
    } else if entries[0].key@ == key {
        Some(entries[0].value)
    } else {
        entry_value(entries.drop_first(), key)
    }
}

/// The value under `key` of an object; `None` for a missing key or a value
/// that is not an object.
pub open spec fn get(v: Json, key: Seq<char>) -> Option<Json> {
    match v {
        Json::Object(entries) => entry_value(entries@, key),
        _ => None,
    }
}

/// The text of a JSON string.
pub open spec fn as_text(v: Json) -> Option<Seq<char>> {
    match v {
        Json::Str(s) => Some(s@),
        _ => None,
    }
}

/// The value of a JSON boolean.
pub open spec fn as_boolean(v: Json) -> Option<bool> {
    match v {
        Json::Bool(b) => Some(b),
        _ => None,
    }
}

/// The value of a JSON integer that fits in an `i64`.
pub open spec fn as_int(v: Json) -> Option<i64> {
    match v {
        Json::Number(n) => n.int,
        _ => None,
    }
}

/// The elements of a JSON array.
pub open spec fn as_elements(v: Json) -> Option<Seq<Json>> {
    match v {
        Json::Array(a) => Some(a@),
        _ => None,
    }
}

/// Looks up `key` in an object (`serde_json::Value::get`).
pub fn json_get<'a>(v: &'a Json, key: &str) -> (r: Option<&'a Json>)
    ensures
        match r {
            Some(x) => get(*v, key@) == Some(*x),
            None => get(*v, key@) is None,
        },
{
    match v {
        Json::Object(entries) => {
            let mut i: usize = 0;
            assert(entries@.skip(0) =~= entries@);
            assert(get(*v, key@) == entry_value(entries@, key@));
            while i < entries.len()
                invariant
                    i <= entries@.len(),
                    get(*v, key@) == entry_value(entries@, key@),
                    entry_value(entries@, key@) == entry_value(entries@.skip(i as int), key@),
                decreases entries@.len() - i,
            {
                proof {
                    assert(entries@.skip(i as int).drop_first() =~= entries@.skip(i + 1));
                    assert(entries@.skip(i as int)[0] == entries@[i as int]);
                }
                if str_eq(entries[i].key.as_str(), key) {
                    let found = &entries[i].value;
                    assert(entry_value(entries@.skip(i as int), key@) == Some(*found));
                    return Some(found);
                }
                i = i + 1;
            }
            None
        },
        _ => None,
    }
}

} // verus!
