//! JSON documents as the library reads them.
//!
//! The answers of the Diet minutes API and e-Stat, and the artifacts of the
//! publishing pipeline, are JSON.  They are handed to the library already
//! parsed, as a `JsonValue`; the readers here are verified over that tree.
use vstd::prelude::*;
use crate::num::{digits_up_to, digits_value, all_ascii_digits};
use crate::text::{chars_eq, chars_of};

verus! {

/// A JSON value.  Object members keep their order; a lookup takes the
/// first member with the key.
#[derive(Debug)]
pub enum JsonValue {
    Null,
    Bool(bool),
    /// A number in its JSON text (e.g. `0`, `-5`, `1.5`).
    Number(String),
    Str(String),
    Array(Vec<JsonValue>),
    Object(Vec<(String, JsonValue)>),
}

/// The value of the first member named `key` of an object's members.
pub open spec fn member(fields: Seq<(String, JsonValue)>, key: Seq<char>) -> Option<JsonValue>
    decreases fields.len(),
{
    if fields.len() == 0 {
        None
    } else if fields[0].0@ == key {
        Some(fields[0].1)
    } else {
        member(fields.drop_first(), key)
    }
}

/// `v.get(key)`: the member `key` of an object.
pub open spec fn json_get(v: JsonValue, key: Seq<char>) -> Option<JsonValue> {
    match v {
        JsonValue::Object(fields) => member(fields@, key),
        _ => None,
    }
}

/// `v[key]`: the member `key` of an object, `Null` when there is none.
pub open spec fn json_at(v: JsonValue, key: Seq<char>) -> JsonValue {
    match json_get(v, key) {
        Some(x) => x,
        None => JsonValue::Null,
    }
}

/// `v.as_str()`.
pub open spec fn json_str(v: JsonValue) -> Option<Seq<char>> {
    match v {
        JsonValue::Str(s) => Some(s@),
        _ => None,
    }
}

/// `v[key].as_str()`.
pub open spec fn str_at(v: JsonValue, key: Seq<char>) -> Option<Seq<char>> {
    json_str(json_at(v, key))
}

/// `v.as_array()`, as a sequence.
pub open spec fn json_array(v: JsonValue) -> Option<Seq<JsonValue>> {
    match v {
        JsonValue::Array(items) => Some(items@),
        _ => None,
    }
}

/// `v.as_i64()`: an integer number that fits in an `i64`.
pub open spec fn json_i64(v: JsonValue) -> Option<i64> {
    match v {
        JsonValue::Number(s) => {
            let t = s@;
            if t.len() > 0 && t[0] == '-' {
                let b = t.drop_first();
                if b.len() > 0 && all_ascii_digits(b) && digits_value(b) <= 0x8000_0000_0000_0000 {
                    Some((0 - digits_value(b)) as i64)
                } else {
                    None
                }
            } else if t.len() > 0 && all_ascii_digits(t) && digits_value(t) <= i64::MAX {
                Some(digits_value(t) as i64)
            } else {
                None
            }
        },
        _ => None,
    }
}

/// `v.as_u64()`: a non-negative integer number that fits in a `u64`.
pub open spec fn json_u64(v: JsonValue) -> Option<u64> {
    match v {
        JsonValue::Number(s) => {
            let t = s@;
            if t.len() > 0 && all_ascii_digits(t) && digits_value(t) <= u64::MAX {
                Some(digits_value(t) as u64)
            } else {
                None
            }
        },
        _ => None,
    }
}

impl JsonValue {
    /// The member `key` of an object (`serde_json::Value::get`).
    pub fn get(&self, key: &str) -> (r: Option<&JsonValue>)
        ensures
            match json_get(*self, key@) {
                Some(x) => r matches Some(y) && *y == x,
                None => r is None,
            },
    {
        match self {
            JsonValue::Object(fields) => {
                let k = chars_of(key);
                let mut i: usize = 0;
                assert(fields@.skip(0) =~= fields@);
                while i < fields.len()
                    invariant
                        i <= fields.len(),
                        k@ == key@,
                        json_get(*self, key@) == member(fields@, key@),
                        member(fields@, key@) == member(fields@.skip(i as int), key@),
                    decreases fields.len() - i,
                {
                    assert(fields@.skip(i as int)[0] == fields@[i as int]);
                    assert(fields@.skip(i as int).drop_first() =~= fields@.skip(i + 1));
                    let fk = chars_of(fields[i].0.as_str());
                    if chars_eq(&fk, &k) {
                        assert(fields@.skip(i as int)[0].0@ == key@);
                        assert(member(fields@.skip(i as int), key@) == Some(fields@[i as int].1));
                        return Some(&fields[i].1);
                    }
                    i = i + 1;
                }
                None
            },
            _ => None,
        }
    }

    /// The text of a string value (`as_str`).
    pub fn as_str(&self) -> (r: Option<&str>)
        ensures
            match json_str(*self) {
                Some(s) => r matches Some(t) && t@ == s,
                None => r is None,
            },
    {
        match self {
            JsonValue::Str(s) => Some(s.as_str()),
            _ => None,
        }
    }

    /// The items of an array value (`as_array`).
    pub fn as_array(&self) -> (r: Option<&Vec<JsonValue>>)
        ensures
            match json_array(*self) {
                Some(items) => r matches Some(v) && v@ == items,
                None => r is None,
            },
    {
        match self {
            JsonValue::Array(v) => Some(v),
            _ => None,
        }
    }

    /// Whether the value is an object (`is_object`).
    pub fn is_object(&self) -> (b: bool)
        ensures
            b == (*self is Object),
    {
        match self {
            JsonValue::Object(_) => true,
            _ => false,
        }
    }

    /// The value of a non-negative integer number that fits in a `u64`
    /// (`as_u64`).
    pub fn as_u64(&self) -> (r: Option<u64>)
        ensures
            r == json_u64(*self),
    {
        match self {
            JsonValue::Number(s) => {
                let t = chars_of(s.as_str());
                assert(t@.skip(0) =~= t@);
                match digits_up_to(&t, 0, 0xffff_ffff_ffff_ffff) {
                    Some(v) => Some(v as u64),
                    None => None,
                }
            },
            _ => None,
        }
    }

    /// The value of an integer number that fits in an `i64` (`as_i64`).
    pub fn as_i64(&self) -> (r: Option<i64>)
        ensures
            r == json_i64(*self),
    {
        match self {
            JsonValue::Number(s) => {
                let t = chars_of(s.as_str());
                if t.len() > 0 && t[0] == '-' {
                    match digits_up_to(&t, 1, 0x8000_0000_0000_0000) {
                        Some(v) => {
                            assert(t@.skip(1) =~= t@.drop_first());
                            Some((0 - (v as i128)) as i64)
                        },
                        None => {
                            assert(t@.skip(1) =~= t@.drop_first());
                            None
                        },
                    }
                } else {
                    assert(t@.skip(0) =~= t@);
                    match digits_up_to(&t, 0, 0x7fff_ffff_ffff_ffff) {
                        Some(v) => Some(v as i64),
                        None => None,
                    }
                }
            },
            _ => None,
        }
    }
}

/// `v[key].as_str().map(String::from)`.
pub fn str_field(v: &JsonValue, key: &str) -> (r: Option<String>)
    ensures
        crate::text::opt_view(r) == str_at(*v, key@),
{
    match v.get(key) {
        Some(x) => match x.as_str() {
            Some(s) => Some(s.to_owned()),
            None => None,
        },
        None => None,
    }
}

/// `v[key].as_str().unwrap_or("")`.
pub fn str_field_or_empty(v: &JsonValue, key: &str) -> (r: String)
    ensures
        r@ == match str_at(*v, key@) {
            Some(s) => s,
            None => Seq::empty(),
        },
{
    match str_field(v, key) {
        Some(s) => s,
        None => String::new(),
    }
}

} // verus!
