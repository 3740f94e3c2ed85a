//! Unwrapping of CozoDB `DataValue`s as they appear in query results.
//!
//! CozoDB serializes values as tagged enums:
//! - `{"Str": "value"}` → string
//! - `{"Bool": true}` → bool
//! - `{"Num": {"Int": N}}` → i64
//! - `{"Num": {"Float": F}}` → f64
//! - `"Null"` → None
//!
//! These helpers extract the inner value from the tagged wrapper, and also
//! accept plain JSON values for forward compatibility.
use vstd::prelude::*;
use crate::json::JsonValue;
use crate::text::str_equal;

verus! {

/// The string a `DataValue` holds: the string under a `Str` tag, else the
/// value itself when it is a plain string other than `"Null"`, which is how
/// the `Null` DataValue is serialized.
pub open spec fn datavalue_str(v: JsonValue) -> Option<Seq<char>> {
    let tagged = match v.spec_get("Str"@) {
        Some(inner) => inner.spec_as_str(),
        None => None,
    };
    if tagged is Some {
        tagged
    } else {
        match v.spec_as_str() {
            Some(s) => if s == "Null"@ {
                None
            } else {
                Some(s)
            },
            None => None,
        }
    }
}

/// The boolean a `DataValue` holds: under a `Bool` tag, else a plain boolean.
pub open spec fn datavalue_bool(v: JsonValue) -> Option<bool> {
    let tagged = match v.spec_get("Bool"@) {
        Some(inner) => inner.spec_as_bool(),
        None => None,
    };
    if tagged is Some {
        tagged
    } else {
        v.spec_as_bool()
    }
}

/// The integer a `DataValue` holds: `{"Num": {"Int": N}}` gives `N`;
/// `{"Num": {"Float": F}}` gives `F` converted to `i64`; otherwise a plain
/// integer that fits in `i64`.
pub open spec fn datavalue_i64(v: JsonValue) -> Option<i64> {
    let tagged = match v.spec_get("Num"@) {
        Some(num) => {
            let as_int = match num.spec_get("Int"@) {
                Some(i) => i.spec_as_i64(),
                None => None,
            };
            if as_int is Some {
                as_int
            } else {
                match num.spec_get("Float"@) {
                    Some(f) => f.spec_float_as_int(),
                    None => None,
                }
            }
        },
        None => None,
    };
    if tagged is Some {
        tagged
    } else {
        v.spec_as_i64()
    }
}

/// Extract a string from a CozoDB DataValue JSON.
pub fn as_str(v: &JsonValue) -> (r: Option<&str>)
    ensures
        r matches Some(s) ==> datavalue_str(*v) == Some(s@),
        r is None ==> datavalue_str(*v) is None,
{
    // Tagged: {"Str": "..."}
    if let Some(inner) = v.get("Str") {
        if let Some(s) = inner.as_str() {
            return Some(s);
        }
    }
    // Plain string; "Null" is the Null DataValue
    match v.as_str() {
        Some(s) => if str_equal(s, "Null") {
            None
        } else {
            Some(s)
        },
        None => None,
    }
}

/// Extract a bool from a CozoDB DataValue JSON.
pub fn as_bool(v: &JsonValue) -> (r: Option<bool>)
    ensures
        r == datavalue_bool(*v),
{
    // Tagged: {"Bool": true/false}
    if let Some(inner) = v.get("Bool") {
        if let Some(b) = inner.as_bool() {
            return Some(b);
        }
    }
    // Plain bool
    v.as_bool()
}

/// Extract an i64 from a CozoDB DataValue JSON.
pub fn as_i64(v: &JsonValue) -> (r: Option<i64>)
    ensures
        r == datavalue_i64(*v),
{
    // Tagged: {"Num": {"Int": N}}
    if let Some(num) = v.get("Num") {
        if let Some(int_val) = num.get("Int") {
            if let Some(i) = int_val.as_i64() {
                return Some(i);
            }
        }
        // Could also be {"Num": {"Float": F}}
        if let Some(f) = num.get("Float") {
            if let Some(i) = f.float_as_int() {
                return Some(i);
            }
        }
    }
    // Plain number
    v.as_i64()
}

} // verus!
