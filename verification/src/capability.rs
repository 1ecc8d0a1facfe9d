use vstd::prelude::*;

use crate::errors::{MappingError, MappingErrorModel};
use crate::row::RowValue;

verus! {

/// The convert-to-row capability: a type whose values can be turned into a
/// `RowValue`, consuming the value. Conversion of a well-typed value cannot
/// fail. Record types compose it recursively, one conversion per field.
pub trait ToRow: Sized {
    /// The row value this value converts to.
    spec fn row_model(self) -> RowValue;

    /// Converts this value into its row representation.
    fn to_row(self) -> (r: RowValue)
        ensures
            r == self.row_model(),
    ;
}

/// The convert-from-row capability: a type whose values can be recovered
/// from a borrowed `RowValue` of the right shape, with a `MappingError` for
/// any other shape.
pub trait FromRow: Sized {
    /// The value a row value converts back to, when it has the right shape.
    spec fn parse_model(v: RowValue) -> Option<Self>;

    /// The error reported for a row value of the wrong shape.
    spec fn mismatch_model(v: RowValue) -> MappingErrorModel;

    /// Converts a borrowed row value back; succeeds exactly on row values of
    /// the right shape.
    fn from_row(v: &RowValue) -> (r: Result<Self, MappingError>)
        ensures
            match r {
                Ok(x) => Self::parse_model(*v) == Some(x),
                Err(e) => Self::parse_model(*v) is None && e@ == Self::mismatch_model(*v),
            },
    ;
}

/// A round-trippable type: converting a value to its row representation and
/// back restores the value.
pub trait RoundTripRow: ToRow + FromRow {
    /// Round trip: what `row_model` yields, `parse_model` takes back.
    proof fn round_trip(v: Self)
        ensures
            Self::parse_model(v.row_model()) == Some(v),
    ;
}

/// The bindable capability: a type whose values convert to a `RowValue`
/// acceptable by the statement-binding interface. Binding a well-typed
/// field cannot fail.
pub trait Bindable {
    /// The value this field binds as.
    spec fn bind_model(&self) -> RowValue;

    /// Converts this field's value for binding.
    fn bind_value(&self) -> (r: RowValue)
        ensures
            r == self.bind_model(),
    ;
}

impl ToRow for i64 {
    open spec fn row_model(self) -> RowValue {
        RowValue::Integer(self)
    }

    fn to_row(self) -> (r: RowValue) {
        RowValue::Integer(self)
    }
}

impl FromRow for i64 {
    open spec fn parse_model(v: RowValue) -> Option<i64> {
        match v {
            RowValue::Integer(i) => Some(i),
            _ => None,
        }
    }

    open spec fn mismatch_model(v: RowValue) -> MappingErrorModel {
        MappingErrorModel::TypeMismatch("expected an integer value"@)
    }

    fn from_row(v: &RowValue) -> (r: Result<i64, MappingError>) {
        match v {
            RowValue::Integer(i) => Ok(*i),
            _ => Err(MappingError::TypeMismatch("expected an integer value".to_owned())),
        }
    }
}

impl RoundTripRow for i64 {
    proof fn round_trip(v: i64) {
    }
}

impl ToRow for String {
    open spec fn row_model(self) -> RowValue {
        RowValue::Text(self)
    }

    fn to_row(self) -> (r: RowValue) {
        RowValue::Text(self)
    }
}

impl FromRow for String {
    open spec fn parse_model(v: RowValue) -> Option<String> {
        match v {
            RowValue::Text(s) => Some(s),
            _ => None,
        }
    }

    open spec fn mismatch_model(v: RowValue) -> MappingErrorModel {
        MappingErrorModel::TypeMismatch("expected a text value"@)
    }

    fn from_row(v: &RowValue) -> (r: Result<String, MappingError>) {
        match v {
            RowValue::Text(s) => Ok(s.clone()),
            _ => Err(MappingError::TypeMismatch("expected a text value".to_owned())),
        }
    }
}

impl RoundTripRow for String {
    proof fn round_trip(v: String) {
    }
}

impl ToRow for bool {
    open spec fn row_model(self) -> RowValue {
        RowValue::Boolean(self)
    }

    fn to_row(self) -> (r: RowValue) {
        RowValue::Boolean(self)
    }
}

impl FromRow for bool {
    open spec fn parse_model(v: RowValue) -> Option<bool> {
        match v {
            RowValue::Boolean(b) => Some(b),
            _ => None,
        }
    }

    open spec fn mismatch_model(v: RowValue) -> MappingErrorModel {
        MappingErrorModel::TypeMismatch("expected a boolean value"@)
    }

    fn from_row(v: &RowValue) -> (r: Result<bool, MappingError>) {
        match v {
            RowValue::Boolean(b) => Ok(*b),
            _ => Err(MappingError::TypeMismatch("expected a boolean value".to_owned())),
        }
    }
}

impl RoundTripRow for bool {
    proof fn round_trip(v: bool) {
    }
}

impl Bindable for i64 {
    open spec fn bind_model(&self) -> RowValue {
        RowValue::Integer(*self)
    }

    fn bind_value(&self) -> (r: RowValue) {
        RowValue::Integer(*self)
    }
}

impl Bindable for String {
    open spec fn bind_model(&self) -> RowValue {
        RowValue::Text(*self)
    }

    fn bind_value(&self) -> (r: RowValue) {
        RowValue::Text(self.clone())
    }
}

impl Bindable for bool {
    open spec fn bind_model(&self) -> RowValue {
        RowValue::Boolean(*self)
    }

    fn bind_value(&self) -> (r: RowValue) {
        RowValue::Boolean(*self)
    }
}

} // verus!
