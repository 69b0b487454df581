//! JSON values as the RPC logic reads them.
use vstd::prelude::*;
use crate::text::str_eq;

verus! {

/// A JSON number, as the integer readings that it admits.
#[derive(Debug, Clone, PartialEq)]
pub struct JsonNumber {
    /// The number as an unsigned 64-bit integer, when it is one.
    pub as_u64: Option<u64>,
    /// The number as a signed 64-bit integer, when it is one.
    pub as_i64: Option<i64>,
}

/// A JSON value; an object lists its members, each key once.
#[derive(Debug, PartialEq)]
pub enum JsonValue {
    Null,
    Bool(bool),
    Number(JsonNumber),
    Str(String),
    Array(Vec<JsonValue>),
    Object(Vec<JsonMember>),
}

/// A member of a JSON object.
#[derive(Debug, PartialEq)]
pub struct JsonMember {
    pub key: String,
    pub value: JsonValue,
}

/// Index of the first member of `members` named `key`, from `i` on.
pub open spec fn member_index(members: Seq<JsonMember>, key: Seq<char>, i: int) -> Option<int>
    decreases members.len() - i,
{
    if i < 0 || i >= members.len() {
        None
    } else if members[i].key@ == key {
        Some(i)
    } else {
        member_index(members, key, i + 1)
    }
}

/// The member of an object named `key`; nothing for other values.
pub open spec fn json_get(v: JsonValue, key: Seq<char>) -> Option<JsonValue> {
    match v {
        JsonValue::Object(members) => match member_index(members@, key, 0) {
            Some(i) => Some(members@[i].value),
            None => None,
        },
        _ => None,
    }
}

/// The text of a string value.
pub open spec fn json_str(v: Option<JsonValue>) -> Option<Seq<char>> {
    match v {
        Some(JsonValue::Str(s)) => Some(s@),
        _ => None,
    }
}

/// A number read as an unsigned 64-bit integer.
pub open spec fn json_u64(v: Option<JsonValue>) -> Option<u64> {
    match v {
        Some(JsonValue::Number(n)) => n.as_u64,
        _ => None,
    }
}

/// A number read as a signed 64-bit integer.
pub open spec fn json_i64(v: Option<JsonValue>) -> Option<i64> {
    match v {
        Some(JsonValue::Number(n)) => n.as_i64,
        _ => None,
    }
}

/// A boolean value.
pub open spec fn json_bool(v: Option<JsonValue>) -> Option<bool> {
    match v {
        Some(JsonValue::Bool(b)) => Some(b),
        _ => None,
    }
}

impl JsonValue {
    /// The member named `key` of an object (`Value::get`).
    pub fn get(&self, key: &str) -> (r: Option<&JsonValue>)
        ensures
            opt_val(r) == json_get(*self, key@),
    {
        match self {
            JsonValue::Object(members) => {
                let n = members.len();
                let mut i: usize = 0;
                while i < n
                    invariant
                        n == members@.len(),
                        *self == JsonValue::Object(*members),
                        i <= n,
                        member_index(members@, key@, 0) == member_index(members@, key@, i as int),
                    decreases n - i,
                {
                    if str_eq(members[i].key.as_str(), key) {
                        assert(member_index(members@, key@, i as int) == Some(i as int));
                        return Some(&members[i].value);
                    }
                    i = i + 1;
                }
                None
            },
            _ => None,
        }
    }
}

/// The text of a string value (`Value::as_str`).
pub fn as_str(v: Option<&JsonValue>) -> (r: Option<&str>)
    ensures
        match json_str(opt_val(v)) {
            Some(s) => r matches Some(t) && t@ == s,
            None => r is None,
        },
{
    match v {
        Some(JsonValue::Str(s)) => Some(s.as_str()),
        _ => None,
    }
}

/// A number read as `u64` (`Value::as_u64`).
pub fn as_u64(v: Option<&JsonValue>) -> (r: Option<u64>)
    ensures
        r == json_u64(opt_val(v)),
{
    match v {
        Some(JsonValue::Number(n)) => n.as_u64,
        _ => None,
    }
}

/// A number read as `i64` (`Value::as_i64`).
pub fn as_i64(v: Option<&JsonValue>) -> (r: Option<i64>)
    ensures
        r == json_i64(opt_val(v)),
{
    match v {
        Some(JsonValue::Number(n)) => n.as_i64,
        _ => None,
    }
}

/// A boolean (`Value::as_bool`).
pub fn as_bool(v: Option<&JsonValue>) -> (r: Option<bool>)
    ensures
        r == json_bool(opt_val(v)),
{
    match v {
        Some(JsonValue::Bool(b)) => Some(*b),
        _ => None,
    }
}

/// The keys of an object's members, in order; none for other values.
pub open spec fn object_keys(v: JsonValue) -> Seq<Seq<char>> {
    match v {
        JsonValue::Object(members) => members@.map_values(|m: JsonMember| m.key@),
        _ => Seq::empty(),
    }
}

/// A JSON number holding an unsigned integer.
pub open spec fn unsigned_number(n: u64) -> JsonNumber {
    JsonNumber { as_u64: Some(n), as_i64: if n <= i64::MAX { Some(n as i64) } else { None } }
}

/// A JSON number holding a signed integer.
pub open spec fn signed_number(n: i64) -> JsonNumber {
    JsonNumber { as_u64: if n >= 0 { Some(n as u64) } else { None }, as_i64: Some(n) }
}

/// A string value.
pub fn json_text(s: &str) -> (r: JsonValue)
    ensures
        json_str(Some(r)) == Some(s@),
{
    JsonValue::Str(s.to_owned())
}

/// A number value from an unsigned integer.
pub fn json_unsigned(n: u64) -> (r: JsonValue)
    ensures
        r == JsonValue::Number(unsigned_number(n)),
{
    let as_i64 = if n <= 0x7fff_ffff_ffff_ffff {
        Some(n as i64)
    } else {
        None
    };
    JsonValue::Number(JsonNumber { as_u64: Some(n), as_i64 })
}

/// A number value from a signed integer.
pub fn json_signed(n: i64) -> (r: JsonValue)
    ensures
        r == JsonValue::Number(signed_number(n)),
{
    let as_u64 = if n >= 0 {
        Some(n as u64)
    } else {
        None
    };
    JsonValue::Number(JsonNumber { as_u64, as_i64: Some(n) })
}

/// A boolean value.
pub fn json_flag(b: bool) -> (r: JsonValue)
    ensures
        r == JsonValue::Bool(b),
{
    JsonValue::Bool(b)
}

/// A member of an object.
pub fn json_member(key: &str, value: JsonValue) -> (r: JsonMember)
    ensures
        r.key@ == key@,
        r.value == value,
{
    JsonMember { key: key.to_owned(), value }
}

/// The value behind an optional reference.
pub open spec fn opt_val(v: Option<&JsonValue>) -> Option<JsonValue> {
    match v {
        Some(x) => Some(*x),
        None => None,
    }
}

} // verus!
