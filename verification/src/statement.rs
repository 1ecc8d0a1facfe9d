use vstd::prelude::*;

use crate::capability::Bindable;
use crate::model::{named_values, FieldDescriptor};
use crate::row::RowValue;

verus! {

/// A parameterized statement object: it records the name-keyed binds issued
/// to it, in issue order. Its view is that bind sequence.
#[derive(PartialEq, Eq)]
pub struct Statement {
    binds: Vec<(String, RowValue)>,
}

impl View for Statement {
    type V = Seq<(String, RowValue)>;

    closed spec fn view(&self) -> Seq<(String, RowValue)> {
        self.binds@
    }
}

impl Statement {
    /// A statement with no binds issued yet.
    pub fn new() -> (r: Statement)
        ensures
            r@ == Seq::<(String, RowValue)>::empty(),
    {
        Statement { binds: Vec::new() }
    }

    /// The number of binds issued so far.
    pub fn len(&self) -> (n: usize)
        ensures
            n == self@.len(),
    {
        self.binds.len()
    }

    /// The bind at position `i`, for inspection.
    pub fn bind_at(&self, i: usize) -> (r: &(String, RowValue))
        requires
            i < self@.len(),
        ensures
            *r == self@[i as int],
    {
        &self.binds[i]
    }

    /// Binds a value into the statement under a field name, mutating the
    /// statement in place; binding cannot fail.
    pub fn bind_by_name(&mut self, name: String, value: RowValue)
        ensures
            final(self)@ == old(self)@.push((name, value)),
    {
        self.binds.push((name, value));
    }
}

/// One generated binder step: converts one field's value through its
/// bindable capability and binds the result under the field's name. Any
/// generic type parameter of a record is constrained to `Bindable` exactly
/// so that this step type-checks for every instantiation.
pub fn bind_field<T: Bindable>(s: &mut Statement, name: String, field: &T)
    ensures
        final(s)@ == old(s)@.push((name, field.bind_model())),
{
    let value = field.bind_value();
    s.bind_by_name(name, value);
}

/// The generated record binder: for each field in declaration order, binds
/// the field's already-converted value into the statement under the field's
/// name — the same name strings the row serializer and deserializer key by.
pub fn bind_record(fields: &Vec<FieldDescriptor>, values: Vec<RowValue>, s: &mut Statement)
    requires
        values@.len() == fields@.len(),
    ensures
        final(s)@ == old(s)@ + named_values(fields@, values@),
{
    let ghost all = values@;
    let n = fields.len();
    let mut vals = values;
    let mut i: usize = 0;
    proof {
        assert(vals@ =~= all.skip(0));
        assert(s@ =~= s@ + named_values(fields@, all).take(0));
    }
    while i < n
        invariant
            n == fields@.len(),
            all.len() == n,
            0 <= i <= n,
            vals@ == all.skip(i as int),
            s@ == old(s)@ + named_values(fields@, all).take(i as int),
        decreases n - i,
    {
        let v = vals.remove(0);
        proof {
            assert(all.skip(i as int).remove(0) =~= all.skip(i as int + 1));
            assert(all.skip(i as int)[0] == all[i as int]);
        }
        let name = fields[i].name.clone();
        s.bind_by_name(name, v);
        proof {
            assert(old(s)@ + named_values(fields@, all).take(i as int + 1) =~= (old(s)@
                + named_values(fields@, all).take(i as int)).push(
                (fields@[i as int].name, all[i as int]),
            ));
        }
        i = i + 1;
    }
    proof {
        assert(named_values(fields@, all).take(n as int) =~= named_values(fields@, all));
    }
}

} // verus!
