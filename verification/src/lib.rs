//! Cap'n Proto schema generation from a CozoDB schema description.
pub mod case;
pub mod column_info;
pub mod cozo_text;
pub mod datavalue;
pub mod digest;
pub mod error;
pub mod introspect;
pub mod json;
pub mod order;
pub mod schema_gen;
pub mod text;
pub mod type_map;
pub mod vocab_detect;

pub use error::Error;
pub use type_map::CapnpType;
pub use schema_gen::{EnumSchema, RelationSchema, SchemaGenerator};
