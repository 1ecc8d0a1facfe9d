use vstd::prelude::*;

use crate::errors::BuildError;
use crate::row::RowValue;

verus! {

/// One named field of a record type: the field's name and its declared type,
/// both rendered as strings exactly as declared. A record's descriptors are
/// ordered by declaration order.
#[derive(PartialEq, Eq)]
pub struct FieldDescriptor {
    pub name: String,
    pub declared_type: String,
}

/// A record type definition, as handed to the model extractor.
pub enum RecordDef {
    /// A product type with a fixed, named field set, in declaration order.
    NamedRecord(Vec<FieldDescriptor>),
    /// A product type with positional fields only; holds the declared types.
    PositionalRecord(Vec<String>),
    /// A product type with no fields at all.
    UnitRecord,
    /// A sum type; holds the variant names.
    SumType(Vec<String>),
}

/// The field-name views of a descriptor sequence, in declaration order.
pub open spec fn field_names(fields: Seq<FieldDescriptor>) -> Seq<Seq<char>> {
    fields.map_values(|f: FieldDescriptor| f.name@)
}

/// No two descriptors share a name. The host record-type system guarantees
/// this of any real record; the mapping routines rely on it.
pub open spec fn distinct_field_names(fields: Seq<FieldDescriptor>) -> bool {
    forall|i: int, j: int| 0 <= i < j < fields.len() ==> fields[i].name@ != fields[j].name@
}

/// Each field's name paired with one converted value, in declaration order.
/// This one shape is what the serializer stores, what the deserializer looks
/// up, and what the binder issues: all three key by the same name strings.
pub open spec fn named_values(fields: Seq<FieldDescriptor>, values: Seq<RowValue>) -> Seq<
    (String, RowValue),
> {
    Seq::new(values.len(), |i: int| (fields[i].name, values[i]))
}

/// Extracts the ordered field-descriptor sequence of a record definition.
/// Only a product type with named fields is supported; every other shape is
/// rejected with `UnsupportedShape`, since no mapping can be derived for it,
/// and the rejection aborts the whole pass over that type.
pub fn extract_fields(def: RecordDef) -> (r: Result<Vec<FieldDescriptor>, BuildError>)
    ensures
        match r {
            Ok(fields) => def matches RecordDef::NamedRecord(g) && fields == g,
            Err(e) => !(def is NamedRecord) && e == BuildError::UnsupportedShape,
        },
{
    match def {
        RecordDef::NamedRecord(fields) => Ok(fields),
        _ => Err(BuildError::UnsupportedShape),
    }
}

} // verus!
