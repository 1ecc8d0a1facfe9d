use vstd::prelude::*;

verus! {

/// Failures of the one-shot build-time pass over a record type: directive
/// parsing, record-shape extraction, and table-metadata emission. Each aborts
/// the processing of the affected record type.
#[derive(Clone, Copy, Debug, PartialEq, Eq, Structural)]
pub enum BuildError {
    /// The schema directive's token sequence does not follow the directive grammar.
    MalformedDirective,
    /// The record definition is not a product type with named fields.
    UnsupportedShape,
    /// The parsed directive lacks a table name or a keyspace.
    MissingTableMetadata,
}

/// Recoverable failures of the runtime mapping routines, returned from row
/// deserialization. Deserialization is fail-fast: the first failing field
/// aborts the record's construction.
#[derive(Debug, PartialEq, Eq)]
pub enum MappingError {
    /// A required field name was absent from the row mapping.
    FieldAbsent(String),
    /// The value handed to top-level deserialization was not the row variant.
    UnexpectedVariant,
    /// A located field value could not be converted to the field's type;
    /// carries a human-readable description.
    TypeMismatch(String),
}

/// The mathematical shape of a `MappingError`: the same variants, with each
/// carried string abstracted to its character sequence.
pub enum MappingErrorModel {
    FieldAbsent(Seq<char>),
    UnexpectedVariant,
    TypeMismatch(Seq<char>),
}

impl View for MappingError {
    type V = MappingErrorModel;

    open spec fn view(&self) -> MappingErrorModel {
        match self {
            MappingError::FieldAbsent(name) => MappingErrorModel::FieldAbsent(name@),
            MappingError::UnexpectedVariant => MappingErrorModel::UnexpectedVariant,
            MappingError::TypeMismatch(reason) => MappingErrorModel::TypeMismatch(reason@),
        }
    }
}

} // verus!
