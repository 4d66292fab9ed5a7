//! Validation of JSON-like values against JSON-Schema-shaped constraint trees.
//!
//! The entry points are [`validate_schema`] and [`validate_schema_object`]:
//! pure functions of a path, a schema, a table of named schemas and a value.
//! They yield success, a schema error or a value error.
//!
//! - [`value`] and [`model`] hold the values and the schemas.
//! - [`rules`] defines the verdict of every schema on every value;
//!   [`laws`] and [`references`] prove what follows from the definition.
//! - [`schema`] computes the verdict.
//! - [`binary64`] and [`nearest`] compare and divide numbers by their bit
//!   patterns, [`pattern`] asks the regular expression engine, and [`text`]
//!   builds the paths that errors carry.

pub mod binary64;
pub mod error;
pub mod laws;
pub mod model;
pub mod nearest;
pub mod pattern;
pub mod references;
pub mod rules;
pub mod schema;
pub mod text;
pub mod value;

pub use binary64::Double;
pub use error::{Error, ErrorModel, SchemaFault, SchemaFaultModel, ValueFault, ValueFaultModel};
pub use model::{
    ArrayValidation, Entry, InstanceType, NumberValidation, ObjectValidation, Schema,
    SchemaObject, SingleOrVec, StringValidation, SubschemaValidation,
};
pub use value::{JsonValue, Member, Number, Value};
pub use schema::{validate_schema, validate_schema_object};
