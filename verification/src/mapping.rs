use vstd::prelude::*;

use crate::errors::{MappingError, MappingErrorModel};
use crate::model::{distinct_field_names, field_names, named_values, FieldDescriptor};
use crate::row::{distinct_keys, lemma_lookup_absent, lemma_lookup_present, lookup, RowMap,
    RowValue};

verus! {

/// The generated record serializer: allocates a mapping sized to the field
/// count and inserts, for each field in declaration order, the field's
/// already-converted value under the field's name. Consumes the values;
/// serialization of a well-typed record cannot fail.
pub fn serialize_record(fields: &Vec<FieldDescriptor>, values: Vec<RowValue>) -> (r: RowValue)
    requires
        values@.len() == fields@.len(),
        distinct_field_names(fields@),
    ensures
        r matches RowValue::Row(m) && m@ == named_values(fields@, values@) && distinct_keys(m@),
{
    let ghost all = values@;
    let n = fields.len();
    let mut map = RowMap::with_capacity(n);
    let mut vals = values;
    let mut i: usize = 0;
    proof {
        assert(vals@ =~= all.skip(0));
        assert(map@ =~= named_values(fields@, all).take(0));
    }
    while i < n
        invariant
            n == fields@.len(),
            all.len() == n,
            distinct_field_names(fields@),
            0 <= i <= n,
            vals@ == all.skip(i as int),
            map@ == named_values(fields@, all).take(i as int),
        decreases n - i,
    {
        let v = vals.remove(0);
        proof {
            assert(all.skip(i as int).remove(0) =~= all.skip(i as int + 1));
            assert(all.skip(i as int)[0] == all[i as int]);
        }
        let name = fields[i].name.clone();
        proof {
            assert(forall|j: int| 0 <= j < map@.len() ==> map@[j].0@ != name@);
            lemma_lookup_absent(map@, name@);
        }
        map.insert(name, v);
        proof {
            assert(named_values(fields@, all).take(i as int + 1) =~= named_values(
                fields@,
                all,
            ).take(i as int).push((fields@[i as int].name, all[i as int])));
        }
        i = i + 1;
    }
    proof {
        assert(named_values(fields@, all).take(n as int) =~= named_values(fields@, all));
        assert forall|a: int, b: int| 0 <= a < b < map@.len() implies map@[a].0@ != map@[b].0@ by {
            assert(map@[a].0 == fields@[a].name && map@[b].0 == fields@[b].name);
        };
    }
    RowValue::Row(map)
}

/// Top-level dispatch of deserialization: a row value must be the `Row`
/// variant; anything else is `UnexpectedVariant`.
pub fn open_row<'a>(v: &'a RowValue) -> (r: Result<&'a RowMap, MappingError>)
    ensures
        match r {
            Ok(m) => *v matches RowValue::Row(mm) && *m == mm,
            Err(e) => !(*v is Row) && e@ == MappingErrorModel::UnexpectedVariant,
        },
{
    match v {
        RowValue::Row(m) => Ok(m),
        _ => Err(MappingError::UnexpectedVariant),
    }
}

/// One generated deserializer step: looks a field's name up in the row
/// mapping, failing fast with `FieldAbsent` of that name when it is missing.
pub fn require_field<'a>(m: &'a RowMap, name: &String) -> (r: Result<&'a RowValue, MappingError>)
    ensures
        match r {
            Ok(v) => lookup(m@, name@) == Some(*v),
            Err(e) => lookup(m@, name@) is None && e@ == MappingErrorModel::FieldAbsent(name@),
        },
{
    match m.get(name) {
        Some(v) => Ok(v),
        None => Err(MappingError::FieldAbsent(name.clone())),
    }
}

/// The first position, in declaration order, whose field name the row
/// mapping lacks.
pub open spec fn first_missing(entries: Seq<(String, RowValue)>, names: Seq<Seq<char>>) -> Option<
    int,
>
    decreases names.len(),
{
    if names.len() == 0 {
        None
    } else if lookup(entries, names[0]) is None {
        Some(0int)
    } else {
        match first_missing(entries, names.skip(1)) {
            None => None,
            Some(k) => Some(k + 1),
        }
    }
}

/// Missing-field law: when the mapping lacks the name at position `k` and
/// holds every earlier name, `k` is the first missing position, so
/// deserialization reports `FieldAbsent` of exactly that name and reads no
/// field past it.
pub proof fn lemma_missing_field_first(
    entries: Seq<(String, RowValue)>,
    names: Seq<Seq<char>>,
    k: int,
)
    requires
        0 <= k < names.len(),
        lookup(entries, names[k]) is None,
        forall|j: int| 0 <= j < k ==> lookup(entries, names[j]) is Some,
    ensures
        first_missing(entries, names) == Some(k),
    decreases k,
{
    if k > 0 {
        lemma_missing_field_first(entries, names.skip(1), k - 1);
    }
}

/// When the mapping holds every field name, nothing is missing.
pub proof fn lemma_no_field_missing(entries: Seq<(String, RowValue)>, names: Seq<Seq<char>>)
    requires
        forall|j: int| 0 <= j < names.len() ==> lookup(entries, names[j]) is Some,
    ensures
        first_missing(entries, names) is None,
    decreases names.len(),
{
    if names.len() > 0 {
        lemma_no_field_missing(entries, names.skip(1));
    }
}

/// The generated record deserializer, lookup phase: requires the `Row`
/// variant, then locates each field's value in declaration order. The first
/// absent field name aborts the whole construction with `FieldAbsent` of
/// that name, and no later field is looked up. On success the located values
/// come back in field order, ready for each type's convert-from-row
/// capability.
pub fn deserialize_record<'a>(fields: &Vec<FieldDescriptor>, v: &'a RowValue) -> (r: Result<
    Vec<&'a RowValue>,
    MappingError,
>)
    ensures
        match r {
            Ok(vs) => {
                &&& *v matches RowValue::Row(m)
                &&& first_missing(m@, field_names(fields@)) is None
                &&& vs@.len() == fields@.len()
                &&& forall|i: int|
                    0 <= i < fields@.len() ==> lookup(m@, fields@[i].name@) == Some(*vs@[i])
            },
            Err(e) => {
                ||| (!(*v is Row) && e@ == MappingErrorModel::UnexpectedVariant)
                ||| (*v matches RowValue::Row(m) && first_missing(m@, field_names(fields@))
                    matches Some(k) && e@ == MappingErrorModel::FieldAbsent(
                    field_names(fields@)[k],
                ))
            },
        },
{
    let m: &RowMap = match open_row(v) {
        Ok(m) => m,
        Err(e) => {
            return Err(e);
        },
    };
    let n = fields.len();
    let mut out: Vec<&'a RowValue> = Vec::new();
    let mut i: usize = 0;
    while i < n
        invariant
            n == fields@.len(),
            0 <= i <= n,
            out@.len() == i,
            *v matches RowValue::Row(mm) && mm == *m,
            forall|j: int|
                0 <= j < i ==> #[trigger] lookup(m@, fields@[j].name@) == Some(*out@[j]),
        decreases n - i,
    {
        match require_field(m, &fields[i].name) {
            Ok(val) => {
                out.push(val);
            },
            Err(e) => {
                proof {
                    assert forall|j: int|
                        0 <= j < i implies lookup(m@, field_names(fields@)[j]) is Some by {
                        assert(field_names(fields@)[j] == fields@[j].name@);
                        assert(lookup(m@, fields@[j].name@) is Some);
                    };
                    assert(field_names(fields@)[i as int] == fields@[i as int].name@);
                    lemma_missing_field_first(m@, field_names(fields@), i as int);
                }
                return Err(e);
            },
        }
        i = i + 1;
    }
    proof {
        assert forall|j: int|
            0 <= j < field_names(fields@).len() implies lookup(
            m@,
            field_names(fields@)[j],
        ) is Some by {
            assert(field_names(fields@)[j] == fields@[j].name@);
            assert(lookup(m@, fields@[j].name@) is Some);
        };
        lemma_no_field_missing(m@, field_names(fields@));
    }
    Ok(out)
}

/// Round-trip law: the row that serialization builds from a record's fields
/// holds every field name, and looking the names up in declaration order
/// yields exactly the values serialization stored — so deserializing that
/// row locates the original values, and converting each back through its
/// type's capability restores the record.
pub proof fn lemma_row_round_trip(fields: Seq<FieldDescriptor>, values: Seq<RowValue>)
    requires
        values.len() == fields.len(),
        distinct_field_names(fields),
    ensures
        first_missing(named_values(fields, values), field_names(fields)) is None,
        forall|i: int|
            0 <= i < fields.len() ==> lookup(named_values(fields, values), fields[i].name@)
                == Some(values[i]),
{
    let entries = named_values(fields, values);
    assert forall|i: int|
        0 <= i < fields.len() implies lookup(entries, fields[i].name@) == Some(
        values[i],
    ) by {
        assert(entries[i].0@ == fields[i].name@);
        lemma_lookup_present(entries, i);
    };
    assert forall|j: int|
        0 <= j < field_names(fields).len() implies lookup(
        entries,
        field_names(fields)[j],
    ) is Some by {
        assert(field_names(fields)[j] == fields[j].name@);
        assert(entries[j].0@ == fields[j].name@);
        lemma_lookup_present(entries, j);
    };
    lemma_no_field_missing(entries, field_names(fields));
}

} // verus!
