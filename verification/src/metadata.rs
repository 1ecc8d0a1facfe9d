use vstd::prelude::*;

use crate::directive::SchemaDirective;
use crate::errors::BuildError;

verus! {

/// The static table metadata emitted for a record type whose schema
/// directive carries both mandatory fields.
#[derive(PartialEq, Eq)]
pub struct TableMetadata {
    table_name: String,
    keyspace: String,
}

impl TableMetadata {
    /// The table name the metadata carries.
    pub closed spec fn spec_table_name(&self) -> Seq<char> {
        self.table_name@
    }

    /// The keyspace the metadata carries.
    pub closed spec fn spec_keyspace(&self) -> Seq<char> {
        self.keyspace@
    }

    /// The table-name accessor attached to the record type.
    pub fn table_name(&self) -> (r: &String)
        ensures
            r@ == self.spec_table_name(),
    {
        &self.table_name
    }

    /// The keyspace accessor attached to the record type.
    pub fn keyspace(&self) -> (r: &String)
        ensures
            r@ == self.spec_keyspace(),
    {
        &self.keyspace
    }
}

/// Emits the table metadata of a parsed directive. Succeeds exactly when the
/// directive carries both `table_name` and `keyspace`; the absence of either
/// is the fatal build-time error `MissingTableMetadata`.
pub fn emit_table_metadata(d: &SchemaDirective) -> (r: Result<TableMetadata, BuildError>)
    ensures
        match r {
            Ok(m) => {
                &&& d@.table_name == Some(m.spec_table_name())
                &&& d@.keyspace == Some(m.spec_keyspace())
            },
            Err(e) => {
                &&& d@.table_name is None || d@.keyspace is None
                &&& e == BuildError::MissingTableMetadata
            },
        },
{
    match (&d.table_name, &d.keyspace) {
        (Some(t), Some(k)) => Ok(
            TableMetadata { table_name: t.clone(), keyspace: k.clone() },
        ),
        _ => Err(BuildError::MissingTableMetadata),
    }
}

} // verus!
