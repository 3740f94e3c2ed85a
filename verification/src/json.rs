//! The JSON values that CozoDB queries answer with, as plain data.
//!
//! A number carries what the generators read of it: its value as an `i64`
//! when it is an integer that fits, its value as an `f64` converted to `i64`,
//! and the text of that `f64`.
use vstd::prelude::*;
use crate::text::str_equal;

verus! {

/// A JSON number as the generators read it.
pub struct JsonNumber {
    /// The number as an `i64`, when it is an integer that fits in one.
    pub int: Option<i64>,
    /// The number read as an `f64`, then converted to `i64` (saturating).
    pub float_as_int: i64,
    /// The number read as an `f64`, rendered as text.
    pub float_text: String,
}

/// A JSON value.
pub enum JsonValue {
    Null,
    Bool(bool),
    Number(JsonNumber),
    String(String),
    Array(Vec<JsonValue>),
    /// The members of an object, in order; keys are distinct.
    Object(Vec<(String, JsonValue)>),
}

/// The value of the first member of `entries` named `key`.
pub open spec fn entry_lookup(entries: Seq<(String, JsonValue)>, key: Seq<char>) -> Option<JsonValue>
    decreases entries.len(),
{
    if entries.len() == 0 {
        None
    } else if entries[0].0@ == key {
        Some(entries[0].1)
    } else {
        entry_lookup(entries.drop_first(), key)
    }
}

impl JsonValue {
    /// The member `key` of an object; nothing for other values.
    pub open spec fn spec_get(self, key: Seq<char>) -> Option<JsonValue> {
        match self {
            JsonValue::Object(entries) => entry_lookup(entries@, key),
            _ => None,
        }
    }

    /// The elements of an array.
    pub open spec fn spec_as_array(self) -> Option<Seq<JsonValue>> {
        match self {
            JsonValue::Array(items) => Some(items@),
            _ => None,
        }
    }

    /// The characters of a string.
    pub open spec fn spec_as_str(self) -> Option<Seq<char>> {
        match self {
            JsonValue::String(s) => Some(s@),
            _ => None,
        }
    }

    /// The value of a boolean.
    pub open spec fn spec_as_bool(self) -> Option<bool> {
        match self {
            JsonValue::Bool(b) => Some(b),
            _ => None,
        }
    }

    /// A number that is an integer fitting in `i64`.
    pub open spec fn spec_as_i64(self) -> Option<i64> {
        match self {
            JsonValue::Number(n) => n.int,
            _ => None,
        }
    }

    /// A number read as `f64` and converted to `i64`.
    pub open spec fn spec_float_as_int(self) -> Option<i64> {
        match self {
            JsonValue::Number(n) => Some(n.float_as_int),
            _ => None,
        }
    }

    /// A number read as `f64`, as text.
    pub open spec fn spec_float_text(self) -> Option<Seq<char>> {
        match self {
            JsonValue::Number(n) => Some(n.float_text@),
            _ => None,
        }
    }

    /// The member `key` of an object.
    pub fn get(&self, key: &str) -> (r: Option<&JsonValue>)
        ensures
            r matches Some(v) ==> self.spec_get(key@) == Some(*v),
            r is None ==> self.spec_get(key@) is None,
    {
        match self {
            JsonValue::Object(entries) => {
                let mut i: usize = 0;
                assert(entries@.skip(0) =~= entries@);
                while i < entries.len()
                    invariant
                        i <= entries.len(),
                        self.spec_get(key@) == entry_lookup(entries@, key@),
                        entry_lookup(entries@, key@) == entry_lookup(entries@.skip(i as int), key@),
                    decreases entries.len() - i,
                {
                    proof {
                        let rest = entries@.skip(i as int);
                        assert(rest.drop_first() =~= entries@.skip(i + 1));
                        assert(rest[0] == entries@[i as int]);
                    }
                    if str_equal(entries[i].0.as_str(), key) {
                        proof {
                            let rest = entries@.skip(i as int);
                            assert(rest[0].0@ == key@);
                            assert(entry_lookup(rest, key@) == Some(rest[0].1));
                        }
                        return Some(&entries[i].1);
                    }
                    i = i + 1;
                }
                None
            },
            _ => None,
        }
    }

    /// The elements of an array.
    pub fn as_array(&self) -> (r: Option<&Vec<JsonValue>>)
        ensures
            r matches Some(v) ==> self.spec_as_array() == Some(v@),
            r is None ==> self.spec_as_array() is None,
    {
        match self {
            JsonValue::Array(items) => Some(items),
            _ => None,
        }
    }

    /// The text of a string.
    pub fn as_str(&self) -> (r: Option<&str>)
        ensures
            r matches Some(s) ==> self.spec_as_str() == Some(s@),
            r is None ==> self.spec_as_str() is None,
    {
        match self {
            JsonValue::String(s) => Some(s.as_str()),
            _ => None,
        }
    }

    /// The value of a boolean.
    pub fn as_bool(&self) -> (r: Option<bool>)
        ensures
            r == self.spec_as_bool(),
    {
        match self {
            JsonValue::Bool(b) => Some(*b),
            _ => None,
        }
    }

    /// A number that is an integer fitting in `i64`.
    pub fn as_i64(&self) -> (r: Option<i64>)
        ensures
            r == self.spec_as_i64(),
    {
        match self {
            JsonValue::Number(n) => n.int,
            _ => None,
        }
    }

    /// A number read as `f64` and converted to `i64`.
    pub fn float_as_int(&self) -> (r: Option<i64>)
        ensures
            r == self.spec_float_as_int(),
    {
        match self {
            JsonValue::Number(n) => Some(n.float_as_int),
            _ => None,
        }
    }

    /// A number read as `f64`, as text.
    pub fn float_text(&self) -> (r: Option<&str>)
        ensures
            r matches Some(s) ==> self.spec_float_text() == Some(s@),
            r is None ==> self.spec_float_text() is None,
    {
        match self {
            JsonValue::Number(n) => Some(n.float_text.as_str()),
            _ => None,
        }
    }
}

} // verus!
