//! Schema-driven record/row mapping core.
//!
//! Given a record type presented as an ordered list of named field
//! descriptors, and a declarative schema directive (table name, keyspace,
//! partition-key and clustering-key field lists), this crate provides the
//! verified logic to serialize a record's field values into a tagged row
//! representation, to deserialize such a row back into field values, and to
//! bind field values by name into a statement object, together with the
//! parser for the directive and the emitter for the table metadata.

pub mod capability;
pub mod directive;
pub mod errors;
pub mod mapping;
pub mod metadata;
pub mod model;
pub mod row;
pub mod statement;
