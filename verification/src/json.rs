//! JSON documents as the bot reads them: its configuration file and the
//! game reports of the Kotoba quiz bot. Text is parsed by `serde_json`; the
//! library reads the resulting tree through the accessors below, which
//! behave as `serde_json::Value`'s `get`, indexing, `as_array`, `as_str`,
//! `as_u64` and `as_bool` do.
use vstd::prelude::*;
use serde_json::Value;

verus! {

#[verifier::external_type_specification]
#[verifier::external_body]
pub struct ExSerdeValue(Value);

/// A JSON number: a non-negative integer, a negative integer, or a number
/// with a fraction or exponent (whose value this library never reads).
#[derive(Clone, Copy, Debug, PartialEq, Eq, Structural)]
pub enum JsonNumber {
    PosInt(u64),
    NegInt(i64),
    Float,
}

/// A JSON value. An object keeps its entries in a list; looking a key up
/// finds its first entry.
#[derive(Debug)]
pub enum JsonValue {
    Null,
    Bool(bool),
    Number(JsonNumber),
    Str(String),
    Array(Vec<JsonValue>),
    Object(Vec<(String, JsonValue)>),
}

/// Entry `i` is the first entry of `entries` under `key`.
pub open spec fn first_key_at(entries: Seq<(String, JsonValue)>, key: Seq<char>, i: int) -> bool {
    &&& 0 <= i < entries.len()
    &&& entries[i].0@ == key
    &&& forall|j: int| 0 <= j < i ==> entries[j].0@ != key
}

/// `v.get(key)`: the value under `key` when `v` is an object that has it.
pub open spec fn json_get(v: JsonValue, key: Seq<char>) -> Option<JsonValue> {
    match v {
        JsonValue::Object(entries) => {
            if exists|i: int| first_key_at(entries@, key, i) {
                Some(entries@[choose|i: int| first_key_at(entries@, key, i)].1)
            } else {
                None
            }
        },
        _ => None,
    }
}

/// `v[key]`: the value under `key`, or `null` when there is none.
pub open spec fn json_field(v: JsonValue, key: Seq<char>) -> JsonValue {
    match json_get(v, key) {
        Some(x) => x,
        None => JsonValue::Null,
    }
}

/// `v.get(i)` for an array index.
pub open spec fn json_get_at(v: JsonValue, i: int) -> Option<JsonValue> {
    match v {
        JsonValue::Array(items) => {
            if 0 <= i < items@.len() {
                Some(items@[i])
            } else {
                None
            }
        },
        _ => None,
    }
}

/// `v[i]`: element `i` of an array, or `null` when there is none.
pub open spec fn json_at(v: JsonValue, i: int) -> JsonValue {
    match json_get_at(v, i) {
        Some(x) => x,
        None => JsonValue::Null,
    }
}

/// `v.as_array()`.
pub open spec fn json_array(v: JsonValue) -> Option<Seq<JsonValue>> {
    match v {
        JsonValue::Array(items) => Some(items@),
        _ => None,
    }
}

/// `v.as_str()`.
pub open spec fn json_str(v: JsonValue) -> Option<Seq<char>> {
    match v {
        JsonValue::Str(s) => Some(s@),
        _ => None,
    }
}

/// `v.as_u64()`: only a non-negative integer has one.
pub open spec fn json_u64(v: JsonValue) -> Option<u64> {
    match v {
        JsonValue::Number(JsonNumber::PosInt(n)) => Some(n),
        _ => None,
    }
}

/// `v.as_bool()`.
pub open spec fn json_bool(v: JsonValue) -> Option<bool> {
    match v {
        JsonValue::Bool(b) => Some(b),
        _ => None,
    }
}

/// The `JsonValue` that `serde_json` parses out of `text`, or `None` where it
/// rejects the text.
pub uninterp spec fn json_of_text(text: Seq<char>) -> Option<JsonValue>;

/// Turns a `serde_json::Value` into a `JsonValue`, variant by variant:
/// numbers by `Number::as_u64` and `Number::as_i64`, arrays and objects
/// element by element in their own order.
#[verifier::external_body]
fn value_from_serde(value: Value) -> JsonValue {
    match value {
        Value::Null => JsonValue::Null,
        Value::Bool(b) => JsonValue::Bool(b),
        Value::Number(n) => JsonValue::Number(match (n.as_u64(), n.as_i64()) {
            (Some(u), _) => JsonNumber::PosInt(u),
            (None, Some(i)) => JsonNumber::NegInt(i),
            (None, None) => JsonNumber::Float,
        }),
        Value::String(s) => JsonValue::Str(s),
        Value::Array(items) => JsonValue::Array(items.into_iter().map(value_from_serde).collect()),
        Value::Object(map) => JsonValue::Object(map.into_iter().map(|(k, x)| (k, value_from_serde(x))).collect()),
    }
}

/// Calls `serde_json::from_str::<serde_json::Value>` on `text`. The result
/// is named, not stated: it is `json_of_text` of the text, `None` where
/// `serde_json` reports an error.
#[verifier::external_body]
fn serde_parse(text: &str) -> (r: Option<JsonValue>)
    ensures
        r == json_of_text(text@),
{
    match serde_json::from_str::<Value>(text) {
        Ok(value) => Some(value_from_serde(value)),
        Err(_) => None,
    }
}

/// Parses JSON text (`None` where it is not JSON).
pub fn parse_json_text(text: &str) -> (r: Option<JsonValue>)
    ensures
        r == json_of_text(text@),
{
    serde_parse(text)
}

impl JsonValue {
    /// The value under `key` of an object (`Value::get` with a key).
    pub fn get(&self, key: &str) -> (r: Option<&JsonValue>)
        ensures
            match r {
                Some(x) => json_get(*self, key@) == Some(*x),
                None => json_get(*self, key@) is None,
            },
    {
        match self {
            JsonValue::Object(entries) => {
                let k = key.to_owned();
                let mut i: usize = 0;
                while i < entries.len()
                    invariant
                        *self == JsonValue::Object(*entries),
                        k@ == key@,
                        i <= entries.len(),
                        forall|j: int| 0 <= j < i ==> entries@[j].0@ != key@,
                    decreases entries.len() - i,
                {
                    if entries[i].0 == k {
                        assert(first_key_at(entries@, key@, i as int));
                        let ghost c = choose|c: int| first_key_at(entries@, key@, c);
                        assert(c == i) by {
                            if c < i {
                            } else if c > i {
                                assert(entries@[i as int].0@ == key@);
                            }
                        }
                        assert(json_get(*self, key@) == Some(entries@[i as int].1));
                        return Some(&entries[i].1);
                    }
                    i = i + 1;
                }
                None
            },
            _ => None,
        }
    }

    /// Element `i` of an array (`Value::get` with an index).
    pub fn get_at(&self, i: usize) -> (r: Option<&JsonValue>)
        ensures
            match r {
                Some(x) => json_get_at(*self, i as int) == Some(*x),
                None => json_get_at(*self, i as int) is None,
            },
    {
        match self {
            JsonValue::Array(items) => {
                if i < items.len() {
                    Some(&items[i])
                } else {
                    None
                }
            },
            _ => None,
        }
    }

    /// The elements of an array.
    pub fn as_array(&self) -> (r: Option<&Vec<JsonValue>>)
        ensures
            match r {
                Some(items) => json_array(*self) == Some(items@),
                None => json_array(*self) is None,
            },
    {
        match self {
            JsonValue::Array(items) => Some(items),
            _ => None,
        }
    }

    /// The text of a string.
    pub fn as_str(&self) -> (r: Option<&String>)
        ensures
            match r {
                Some(s) => json_str(*self) == Some(s@),
                None => json_str(*self) is None,
            },
    {
        match self {
            JsonValue::Str(s) => Some(s),
            _ => None,
        }
    }

    /// The value of a non-negative integer.
    pub fn as_u64(&self) -> (r: Option<u64>)
        ensures
            r == json_u64(*self),
    {
        match self {
            JsonValue::Number(JsonNumber::PosInt(n)) => Some(*n),
            _ => None,
        }
    }

    /// The value of a boolean.
    pub fn as_bool(&self) -> (r: Option<bool>)
        ensures
            r == json_bool(*self),
    {
        match self {
            JsonValue::Bool(b) => Some(*b),
            _ => None,
        }
    }
}

/// `v[key]` on a value that may itself be missing (`None` stands for `null`).
pub fn field<'a>(v: Option<&'a JsonValue>, key: &str) -> (r: Option<&'a JsonValue>)
    ensures
        match v {
            Some(x) => match r {
                Some(y) => json_get(*x, key@) == Some(*y),
                None => json_get(*x, key@) is None,
            },
            None => r is None,
        },
{
    match v {
        Some(x) => x.get(key),
        None => None,
    }
}

/// `v[i]` on a value that may itself be missing (`None` stands for `null`).
pub fn field_at<'a>(v: Option<&'a JsonValue>, i: usize) -> (r: Option<&'a JsonValue>)
    ensures
        match v {
            Some(x) => match r {
                Some(y) => json_get_at(*x, i as int) == Some(*y),
                None => json_get_at(*x, i as int) is None,
            },
            None => r is None,
        },
{
    match v {
        Some(x) => x.get_at(i),
        None => None,
    }
}

/// The value that `v[..]` yields: `null` where the lookup found nothing.
pub open spec fn or_null(r: Option<JsonValue>) -> JsonValue {
    match r {
        Some(x) => x,
        None => JsonValue::Null,
    }
}

} // verus!
