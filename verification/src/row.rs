use vstd::prelude::*;

verus! {

/// The generic tagged row representation. A serialized record is the `Row`
/// variant, carrying an insertion-ordered mapping from field-name string to
/// further `RowValue`s; the scalar variants carry the field values this crate
/// can convert.
#[derive(PartialEq, Eq)]
pub enum RowValue {
    Row(RowMap),
    Integer(i64),
    Text(String),
    Boolean(bool),
}

/// The name-keyed field mapping of a row: an insertion-ordered association
/// list whose keys are kept distinct by `insert`'s precondition. Its view is
/// the sequence of entries in insertion order.
#[derive(PartialEq, Eq)]
pub struct RowMap {
    entries: Vec<(String, RowValue)>,
}

/// First-match lookup of a field name in an entry sequence. On a sequence
/// with distinct keys this is the mapping's lookup.
pub open spec fn lookup(entries: Seq<(String, RowValue)>, key: Seq<char>) -> Option<RowValue>
    decreases entries.len(),
{
    if entries.len() == 0 {
        None
    } else if entries[0].0@ == key {
        Some(entries[0].1)
    } else {
        lookup(entries.skip(1), key)
    }
}

/// The entry sequence holds no two entries with the same field name.
pub open spec fn distinct_keys(entries: Seq<(String, RowValue)>) -> bool {
    forall|i: int, j: int| 0 <= i < j < entries.len() ==> entries[i].0@ != entries[j].0@
}

/// A key that occurs at position `i`, and nowhere earlier, is looked up to
/// the value stored at `i`.
pub proof fn lemma_lookup_present(entries: Seq<(String, RowValue)>, i: int)
    requires
        0 <= i < entries.len(),
        forall|j: int| 0 <= j < i ==> entries[j].0@ != entries[i].0@,
    ensures
        lookup(entries, entries[i].0@) == Some(entries[i].1),
    decreases i,
{
    if i > 0 {
        lemma_lookup_present(entries.skip(1), i - 1);
    }
}

/// A key that occurs nowhere in the entry sequence is looked up to `None`.
pub proof fn lemma_lookup_absent(entries: Seq<(String, RowValue)>, key: Seq<char>)
    requires
        forall|i: int| 0 <= i < entries.len() ==> entries[i].0@ != key,
    ensures
        lookup(entries, key) is None,
    decreases entries.len(),
{
    if entries.len() > 0 {
        lemma_lookup_absent(entries.skip(1), key);
    }
}

impl View for RowMap {
    type V = Seq<(String, RowValue)>;

    closed spec fn view(&self) -> Seq<(String, RowValue)> {
        self.entries@
    }
}

impl RowMap {
    /// An empty mapping.
    pub fn new() -> (r: RowMap)
        ensures
            r@ == Seq::<(String, RowValue)>::empty(),
    {
        RowMap { entries: Vec::new() }
    }

    /// An empty mapping whose backing storage is allocated for `capacity`
    /// entries, the field count of the record about to be serialized.
    pub fn with_capacity(capacity: usize) -> (r: RowMap)
        ensures
            r@ == Seq::<(String, RowValue)>::empty(),
    {
        RowMap { entries: Vec::with_capacity(capacity) }
    }

    pub fn len(&self) -> (n: usize)
        ensures
            n == self@.len(),
    {
        self.entries.len()
    }

    /// Inserts a field under a name not yet present, keeping insertion order.
    pub fn insert(&mut self, name: String, value: RowValue)
        requires
            lookup(old(self)@, name@) is None,
        ensures
            final(self)@ == old(self)@.push((name, value)),
    {
        self.entries.push((name, value));
    }

    /// Looks a field name up; returns the stored value exactly when the name
    /// is present.
    pub fn get<'a>(&'a self, name: &String) -> (r: Option<&'a RowValue>)
        ensures
            match r {
                Some(v) => lookup(self@, name@) == Some(*v),
                None => lookup(self@, name@) is None,
            },
    {
        let n = self.entries.len();
        let mut i: usize = 0;
        while i < n
            invariant
                n == self.entries@.len(),
                0 <= i <= n,
                forall|j: int| 0 <= j < i ==> self.entries@[j].0@ != name@,
            decreases n - i,
        {
            if self.entries[i].0 == *name {
                proof {
                    lemma_lookup_present(self@, i as int);
                }
                return Some(&self.entries[i].1);
            }
            i = i + 1;
        }
        proof {
            lemma_lookup_absent(self@, name@);
        }
        None
    }
}

} // verus!
