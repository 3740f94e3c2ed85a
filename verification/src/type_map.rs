//! Mapping of CozoDB column types onto Cap'n Proto types.
use vstd::prelude::*;
use crate::error::Error;
use crate::text::str_equal;

verus! {

/// Cap'n Proto type resolved from a CozoDB column via the field_type graph.
#[derive(Debug, Clone, PartialEq, Eq)]
pub enum CapnpType {
    /// Reference to a domain enum (e.g. "Element", "Phase").
    DomainRef(String),
    /// Typed integer: struct { measure :UInt16; unit :UInt16; magnitude :Int64 }.
    TypedInt,
    /// Boolean leaf.
    Bool,
    /// Content-addressed bytes.
    Data,
    /// Legacy: bare Text (only used when field_type graph is not loaded).
    LegacyText,
    /// Legacy: bare Int64 (only used when field_type graph is not loaded).
    LegacyInt64,
    /// Legacy: bare Float64 (only used when field_type graph is not loaded).
    LegacyFloat64,
}

/// The type a field_type graph kind names, other than a domain reference.
pub open spec fn scalar_kind_type(kind: Seq<char>) -> Option<CapnpType> {
    if kind == "bool"@ {
        Some(CapnpType::Bool)
    } else if kind == "int"@ {
        Some(CapnpType::TypedInt)
    } else if kind == "data"@ {
        Some(CapnpType::Data)
    } else {
        None
    }
}

/// The legacy mapping of a CozoDB column type.
pub open spec fn cozo_column_type(col_type: Seq<char>) -> Option<CapnpType> {
    if col_type == "String"@ {
        Some(CapnpType::LegacyText)
    } else if col_type == "Int"@ {
        Some(CapnpType::LegacyInt64)
    } else if col_type == "Float"@ {
        Some(CapnpType::LegacyFloat64)
    } else if col_type == "Bool"@ {
        Some(CapnpType::Bool)
    } else if col_type == "Bytes"@ {
        Some(CapnpType::Data)
    } else if col_type == "Json"@ {
        Some(CapnpType::LegacyText)
    } else if col_type == "List"@ {
        Some(CapnpType::Data)
    } else {
        None
    }
}

/// The error text for a column type with no mapping.
pub open spec fn unknown_cozo_type_text(col_type: Seq<char>) -> Seq<char> {
    "unknown CozoDB type: "@ + col_type
}

impl CapnpType {
    /// The Cap'n Proto schema text of the type.
    pub open spec fn spec_text(self) -> Seq<char> {
        match self {
            CapnpType::DomainRef(name) => name@,
            CapnpType::TypedInt => "TypedInt"@,
            CapnpType::Bool => "Bool"@,
            CapnpType::Data => "Data"@,
            CapnpType::LegacyText => "Text"@,
            CapnpType::LegacyInt64 => "Int64"@,
            CapnpType::LegacyFloat64 => "Float64"@,
        }
    }

    /// Convert to the Cap'n Proto schema text representation.
    pub fn to_capnp_text(&self) -> (r: String)
        ensures
            r@ == self.spec_text(),
    {
        match self {
            CapnpType::DomainRef(name) => name.as_str().to_owned(),
            CapnpType::TypedInt => "TypedInt".to_owned(),
            CapnpType::Bool => "Bool".to_owned(),
            CapnpType::Data => "Data".to_owned(),
            CapnpType::LegacyText => "Text".to_owned(),
            CapnpType::LegacyInt64 => "Int64".to_owned(),
            CapnpType::LegacyFloat64 => "Float64".to_owned(),
        }
    }

    /// Resolve a field type from the field_type graph entry.
    /// kind: "domain", "bool", "int", "data"
    /// target_domain: domain name when kind=domain
    pub fn from_field_type(kind: &str, target_domain: &str) -> (r: Result<Self, Error>)
        ensures
            kind@ == "domain"@ ==> (if target_domain@.len() == 0 {
                r matches Err(Error::TypeMap { detail })
                    && detail@ == "kind=domain but target_domain is empty"@
            } else {
                r matches Ok(CapnpType::DomainRef(name)) && name@ == target_domain@
            }),
            kind@ != "domain"@ ==> match scalar_kind_type(kind@) {
                Some(t) => r == Ok::<CapnpType, Error>(t),
                None => r matches Err(Error::TypeMap { detail })
                    && detail@ == "unknown ScalarKind: "@ + kind@,
            },
    {
        if str_equal(kind, "domain") {
            if target_domain.is_empty() {
                return Err(Error::TypeMap {
                    detail: "kind=domain but target_domain is empty".to_owned(),
                });
            }
            Ok(CapnpType::DomainRef(target_domain.to_owned()))
        } else if str_equal(kind, "bool") {
            Ok(CapnpType::Bool)
        } else if str_equal(kind, "int") {
            Ok(CapnpType::TypedInt)
        } else if str_equal(kind, "data") {
            Ok(CapnpType::Data)
        } else {
            let mut detail = "unknown ScalarKind: ".to_owned();
            detail.append(kind);
            Err(Error::TypeMap { detail })
        }
    }

    /// Fallback: resolve from CozoDB column type when no field_type entry exists.
    /// This is the legacy path — used only when field_type graph is not loaded.
    /// Preserves backward compatibility: String→Text, Int→Int64.
    pub fn from_cozo_type(col_type: &str) -> (r: Result<Self, Error>)
        ensures
            match cozo_column_type(col_type@) {
                Some(t) => r == Ok::<CapnpType, Error>(t),
                None => r matches Err(Error::TypeMap { detail })
                    && detail@ == unknown_cozo_type_text(col_type@),
            },
    {
        if str_equal(col_type, "String") {
            Ok(CapnpType::LegacyText)
        } else if str_equal(col_type, "Int") {
            Ok(CapnpType::LegacyInt64)
        } else if str_equal(col_type, "Float") {
            Ok(CapnpType::LegacyFloat64)
        } else if str_equal(col_type, "Bool") {
            Ok(CapnpType::Bool)
        } else if str_equal(col_type, "Bytes") {
            Ok(CapnpType::Data)
        } else if str_equal(col_type, "Json") {
            Ok(CapnpType::LegacyText)
        } else if str_equal(col_type, "List") {
            Ok(CapnpType::Data)
        } else {
            let mut detail = "unknown CozoDB type: ".to_owned();
            detail.append(col_type);
            Err(Error::TypeMap { detail })
        }
    }
}

} // verus!
