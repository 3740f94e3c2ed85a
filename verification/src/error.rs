//! Errors produced by the code generators.
use vstd::prelude::*;

verus! {

/// Errors produced by codegen operations.
#[derive(Debug)]
pub enum Error {
    /// A CozoDB query failed during schema introspection.
    Query { detail: String },
    /// Schema introspection returned unexpected data.
    Schema { detail: String },
    /// Type mapping failed for a CozoDB column type.
    TypeMap { detail: String },
}

/// `e` is a query error with the given detail.
pub open spec fn is_query_error(e: Error, detail: Seq<char>) -> bool {
    e matches Error::Query { detail: d } && d@ == detail
}

/// `e` is a schema error with the given detail.
pub open spec fn is_schema_error(e: Error, detail: Seq<char>) -> bool {
    e matches Error::Schema { detail: d } && d@ == detail
}

/// `e` is a type map error with the given detail.
pub open spec fn is_type_map_error(e: Error, detail: Seq<char>) -> bool {
    e matches Error::TypeMap { detail: d } && d@ == detail
}

impl Error {
    /// The kind prefix followed by the detail, as the error is shown to users.
    pub open spec fn spec_message(&self) -> Seq<char> {
        match self {
            Error::Query { detail } => "query error: "@ + detail@,
            Error::Schema { detail } => "schema error: "@ + detail@,
            Error::TypeMap { detail } => "type map error: "@ + detail@,
        }
    }

    /// The detail text carried by any variant.
    pub open spec fn spec_detail(&self) -> Seq<char> {
        match self {
            Error::Query { detail } => detail@,
            Error::Schema { detail } => detail@,
            Error::TypeMap { detail } => detail@,
        }
    }

    /// The human-readable message: `query error: ...`, `schema error: ...`
    /// or `type map error: ...`.
    pub fn message(&self) -> (r: String)
        ensures
            r@ == self.spec_message(),
    {
        let mut r = String::new();
        match self {
            Error::Query { detail } => {
                r.append("query error: ");
                r.append(detail.as_str());
            },
            Error::Schema { detail } => {
                r.append("schema error: ");
                r.append(detail.as_str());
            },
            Error::TypeMap { detail } => {
                r.append("type map error: ");
                r.append(detail.as_str());
            },
        }
        r
    }
}

} // verus!
