//! The table that gives every object shape one name.

use crate::text::{key_le, key_le_exec};
use crate::types::{JsonType, Shape};
use vstd::prelude::*;
use vstd::string::*;

verus! {

/// The fields of one object shape: each field's name with its type.
pub type Signature = Seq<(Seq<char>, Shape)>;

/// What the table holds: the name given to each signature.
pub type Names = Map<Signature, Seq<char>>;

/// The signature that a list of fields stands for, in the list's order.
pub open spec fn signature_of(fields: Seq<(String, JsonType)>) -> Signature {
    Seq::new(fields.len(), |i: int| (fields[i].0@, fields[i].1@))
}

/// `sorted` with `field` put behind the last field whose name is not
/// greater than its own.
pub open spec fn insert_by_name(sorted: Signature, field: (Seq<char>, Shape)) -> Signature
    decreases sorted.len(),
{
    if sorted.len() == 0 {
        seq![field]
    } else if key_le(sorted.last().0, field.0) {
        sorted.push(field)
    } else {
        insert_by_name(sorted.drop_last(), field).push(sorted.last())
    }
}

/// A signature sorted by field name; fields of one name keep their order.
/// Two lists of fields are one shape when this gives the same for both.
pub open spec fn canonical(signature: Signature) -> Signature
    decreases signature.len(),
{
    if signature.len() == 0 {
        signature
    } else {
        insert_by_name(canonical(signature.drop_last()), signature.last())
    }
}

/// The map that a list of entries builds when each is inserted in turn.
pub open spec fn names_of(entries: Seq<(Signature, Seq<char>)>) -> Names
    decreases entries.len(),
{
    if entries.len() == 0 {
        Map::empty()
    } else {
        names_of(entries.drop_last()).insert(entries.last().0, entries.last().1)
    }
}

/// Whether no signature stands twice in `entries`.
pub open spec fn distinct_signatures(entries: Seq<(Signature, Seq<char>)>) -> bool {
    forall|i: int, j: int| 0 <= i < j < entries.len() ==> entries[i].0 != entries[j].0
}

proof fn lemma_insert_by_name_at(sorted: Signature, field: (Seq<char>, Shape), j: int)
    requires
        0 <= j <= sorted.len(),
        forall|k: int| j <= k < sorted.len() ==> !key_le(#[trigger] sorted[k].0, field.0),
        j > 0 ==> key_le(sorted[j - 1].0, field.0),
    ensures
        insert_by_name(sorted, field) == sorted.subrange(0, j).push(field) + sorted.subrange(
            j,
            sorted.len() as int,
        ),
    decreases sorted.len(),
{
    let n = sorted.len() as int;
    if j == n {
        assert(sorted.subrange(0, j) =~= sorted);
        assert(sorted.subrange(j, n) =~= Seq::empty());
        if n == 0 {
            assert(seq![field] =~= sorted.push(field) + Seq::empty());
        } else {
            assert(sorted.push(field) =~= sorted.push(field) + Seq::empty());
        }
    } else {
        assert(!key_le(sorted[n - 1].0, field.0));
        let front = sorted.drop_last();
        lemma_insert_by_name_at(front, field, j);
        assert(front.subrange(0, j) =~= sorted.subrange(0, j));
        assert((front.subrange(0, j).push(field) + front.subrange(j, n - 1)).push(sorted.last())
            =~= sorted.subrange(0, j).push(field) + sorted.subrange(j, n));
    }
}

proof fn lemma_names_of_absent(entries: Seq<(Signature, Seq<char>)>, key: Signature)
    requires
        forall|i: int| 0 <= i < entries.len() ==> (#[trigger] entries[i]).0 != key,
    ensures
        !names_of(entries).contains_key(key),
    decreases entries.len(),
{
    if entries.len() > 0 {
        lemma_names_of_absent(entries.drop_last(), key);
        assert(entries.last() == entries[entries.len() - 1]);
    }
}

proof fn lemma_names_of_present(entries: Seq<(Signature, Seq<char>)>, i: int)
    requires
        0 <= i < entries.len(),
        distinct_signatures(entries),
    ensures
        names_of(entries).contains_key(entries[i].0),
        names_of(entries)[entries[i].0] == entries[i].1,
    decreases entries.len(),
{
    let n = entries.len() as int;
    if i < n - 1 {
        let front = entries.drop_last();
        assert(distinct_signatures(front)) by {
            assert forall|a: int, b: int| 0 <= a < b < front.len() implies front[a].0
                != front[b].0 by {
                assert(front[a] == entries[a]);
                assert(front[b] == entries[b]);
            }
        }
        lemma_names_of_present(front, i);
        assert(front[i] == entries[i]);
        assert(entries[i].0 != entries[n - 1].0);
    }
}

proof fn lemma_names_of_count(entries: Seq<(Signature, Seq<char>)>)
    requires
        distinct_signatures(entries),
    ensures
        names_of(entries).dom().finite(),
        names_of(entries).dom().len() == entries.len(),
    decreases entries.len(),
{
    if entries.len() > 0 {
        let n = entries.len() as int;
        let front = entries.drop_last();
        assert(distinct_signatures(front)) by {
            assert forall|a: int, b: int| 0 <= a < b < front.len() implies front[a].0
                != front[b].0 by {
                assert(front[a] == entries[a]);
                assert(front[b] == entries[b]);
            }
        }
        lemma_names_of_count(front);
        assert forall|i: int| 0 <= i < front.len() implies (#[trigger] front[i]).0
            != entries.last().0 by {
            assert(front[i] == entries[i]);
        }
        lemma_names_of_absent(front, entries.last().0);
        assert(names_of(entries).dom() =~= names_of(front).dom().insert(entries.last().0));
    }
}

proof fn lemma_names_of_replace(entries: Seq<(Signature, Seq<char>)>, i: int, name: Seq<char>)
    requires
        0 <= i < entries.len(),
        distinct_signatures(entries),
    ensures
        names_of(entries.update(i, (entries[i].0, name))) == names_of(entries).insert(
            entries[i].0,
            name,
        ),
    decreases entries.len(),
{
    let n = entries.len() as int;
    let after = entries.update(i, (entries[i].0, name));
    let front = entries.drop_last();
    if i == n - 1 {
        assert(after.drop_last() =~= front);
        assert(names_of(after) =~= names_of(entries).insert(entries[i].0, name));
    } else {
        assert(distinct_signatures(front)) by {
            assert forall|a: int, b: int| 0 <= a < b < front.len() implies front[a].0
                != front[b].0 by {
                assert(front[a] == entries[a]);
                assert(front[b] == entries[b]);
            }
        }
        lemma_names_of_replace(front, i, name);
        assert(front[i] == entries[i]);
        assert(after.drop_last() =~= front.update(i, (entries[i].0, name)));
        assert(after.last() == entries.last());
        assert(entries[i].0 != entries[n - 1].0);
        assert(names_of(after) =~= names_of(entries).insert(entries[i].0, name));
    }
}

/// Sorts the fields by name, in place.
fn canonicalize(fields: &mut Vec<(String, JsonType)>)
    ensures
        signature_of(final(fields)@) == canonical(signature_of(old(fields)@)),
{
    let ghost given = signature_of(fields@);
    let n = fields.len();
    let mut i: usize = 0;
    assert(given.subrange(0, 0) =~= Seq::empty());
    while i < n
        invariant
            i <= n,
            fields@.len() == n,
            given.len() == n,
            signature_of(fields@).subrange(0, i as int) == canonical(given.subrange(0, i as int)),
            signature_of(fields@).subrange(i as int, n as int) == given.subrange(
                i as int,
                n as int,
            ),
        decreases n - i,
    {
        let ghost before = signature_of(fields@);
        let ghost sorted = before.subrange(0, i as int);
        let field = fields.remove(i);
        let ghost moved = (field.0@, field.1@);
        assert(moved == before[i as int]);
        assert(moved == given.subrange(i as int, n as int)[0]);
        let mut j: usize = i;
        while j > 0 && !key_le_exec(fields[j - 1].0.as_str(), field.0.as_str())
            invariant
                j <= i,
                i < n,
                fields@.len() == n - 1,
                moved == (field.0@, field.1@),
                forall|k: int| j <= k < i ==> !key_le((#[trigger] fields@[k]).0@, moved.0),
            decreases j,
        {
            j = j - 1;
        }
        let ghost removed = fields@;
        fields.insert(j, field);
        proof {
            assert(sorted =~= signature_of(removed).subrange(0, i as int));
            assert forall|k: int| j <= k < sorted.len() implies !key_le(
                #[trigger] sorted[k].0,
                moved.0,
            ) by {
                assert(sorted[k].0 == removed[k].0@);
            }
            if j > 0 {
                assert(sorted[j - 1].0 == removed[j - 1].0@);
            }
            lemma_insert_by_name_at(sorted, moved, j as int);
            assert(given.subrange(0, i + 1).drop_last() =~= given.subrange(0, i as int));
            assert(given.subrange(0, i + 1).last() == moved);
            assert(signature_of(fields@).subrange(0, i + 1) =~= sorted.subrange(0, j as int).push(
                moved,
            ) + sorted.subrange(j as int, i as int));
            assert forall|k: int| i + 1 <= k < n implies signature_of(fields@)[k] == given[k] by {
                assert(fields@[k] == removed[k - 1]);
                assert(before[k] == before.subrange(i as int, n as int)[k - i]);
                assert(given[k] == given.subrange(i as int, n as int)[k - i]);
            }
            assert(signature_of(fields@).subrange(i + 1, n as int) =~= given.subrange(
                i + 1,
                n as int,
            ));
        }
        i = i + 1;
    }
    assert(signature_of(fields@).subrange(0, n as int) =~= signature_of(fields@));
    assert(given.subrange(0, n as int) =~= given);
}

/// Whether two lists of fields are the same, field by field.
fn same_fields(a: &Vec<(String, JsonType)>, b: &Vec<(String, JsonType)>) -> (r: bool)
    ensures
        r == (signature_of(a@) == signature_of(b@)),
{
    if a.len() != b.len() {
        assert(signature_of(a@).len() != signature_of(b@).len());
        return false;
    }
    let mut i: usize = 0;
    while i < a.len()
        invariant
            i <= a@.len(),
            a@.len() == b@.len(),
            forall|k: int| 0 <= k < i ==> signature_of(a@)[k] == signature_of(b@)[k],
        decreases a@.len() - i,
    {
        if !(a[i].0 == b[i].0 && a[i].1 == b[i].1) {
            assert(signature_of(a@)[i as int] != signature_of(b@)[i as int]);
            return false;
        }
        i = i + 1;
    }
    assert(signature_of(a@) =~= signature_of(b@));
    true
}

/// Gives one name to every object shape, so that objects of one shape share
/// one declaration.
pub struct ObjectTypeTable {
    entries: Vec<(Vec<(String, JsonType)>, String)>,
}

impl ObjectTypeTable {
    /// The entries as they stand: each signature, sorted, with its name.
    pub closed spec fn entries(&self) -> Seq<(Signature, Seq<char>)> {
        Seq::new(
            self.entries@.len(),
            |i: int| (signature_of(self.entries@[i].0@), self.entries@[i].1@),
        )
    }

    #[verifier::type_invariant]
    spec fn no_signature_twice(&self) -> bool {
        distinct_signatures(self.entries())
    }

    /// An empty table.
    pub fn new() -> (r: ObjectTypeTable)
        ensures
            r@ == Names::empty(),
    {
        let r = ObjectTypeTable { entries: Vec::new() };
        assert(r.entries() =~= Seq::empty());
        r
    }

    fn position(&self, sorted: &Vec<(String, JsonType)>) -> (r: Option<usize>)
        ensures
            match r {
                Some(i) => i < self.entries().len() && self.entries()[i as int].0 == signature_of(
                    sorted@,
                ),
                None => forall|i: int|
                    0 <= i < self.entries().len() ==> (#[trigger] self.entries()[i]).0
                        != signature_of(sorted@),
            },
    {
        let mut i: usize = 0;
        while i < self.entries.len()
            invariant
                i <= self.entries@.len(),
                forall|k: int|
                    0 <= k < i ==> (#[trigger] self.entries()[k]).0 != signature_of(sorted@),
            decreases self.entries@.len() - i,
        {
            if same_fields(&self.entries[i].0, sorted) {
                return Some(i);
            }
            i = i + 1;
        }
        None
    }

    /// The name under which the shape of `fields` stands, if it does.
    /// `fields` may come in any order.
    pub fn get_object_name(&self, fields: Vec<(String, JsonType)>) -> (r: Option<String>)
        ensures
            match r {
                Some(name) => self@.contains_key(canonical(signature_of(fields@))) && name@
                    == self@[canonical(signature_of(fields@))],
                None => !self@.contains_key(canonical(signature_of(fields@))),
            },
    {
        let mut sorted = fields;
        canonicalize(&mut sorted);
        proof {
            use_type_invariant(self);
        }
        match self.position(&sorted) {
            Some(i) => {
                proof {
                    lemma_names_of_present(self.entries(), i as int);
                }
                Some(self.entries[i].1.clone())
            },
            None => {
                proof {
                    lemma_names_of_absent(self.entries(), signature_of(sorted@));
                }
                None
            },
        }
    }

    /// Puts the shape of `fields` under `object_name`, in place of the name
    /// it had, if any. `fields` may come in any order.
    pub fn insert(&mut self, object_name: &str, fields: Vec<(String, JsonType)>)
        ensures
            final(self)@ == old(self)@.insert(canonical(signature_of(fields@)), object_name@),
    {
        let mut sorted = fields;
        canonicalize(&mut sorted);
        proof {
            use_type_invariant(&*self);
        }
        let ghost before = self.entries();
        let ghost key = signature_of(sorted@);
        let found = self.position(&sorted);
        // The entries leave the table while they change, so that the table
        // is whole at every step.
        let mut entries = Vec::new();
        std::mem::swap(&mut self.entries, &mut entries);
        match found {
            Some(i) => {
                entries.set(i, (sorted, String::from_str(object_name)));
                proof {
                    lemma_names_of_replace(before, i as int, object_name@);
                }
            },
            None => {
                entries.push((sorted, String::from_str(object_name)));
            },
        }
        let ghost after = Seq::new(
            entries@.len(),
            |i: int| (signature_of(entries@[i].0@), entries@[i].1@),
        );
        proof {
            match found {
                Some(i) => {
                    assert(after =~= before.update(i as int, (key, object_name@)));
                    assert forall|a: int, b: int| 0 <= a < b < after.len() implies after[a].0
                        != after[b].0 by {
                        assert(after[a].0 == before[a].0);
                        assert(after[b].0 == before[b].0);
                    }
                },
                None => {
                    assert(after =~= before.push((key, object_name@)));
                    assert(after.drop_last() =~= before);
                    assert forall|a: int, b: int| 0 <= a < b < after.len() implies after[a].0
                        != after[b].0 by {
                        if b < before.len() {
                            assert(after[a] == before[a]);
                            assert(after[b] == before[b]);
                        } else {
                            assert(after[a] == before[a]);
                        }
                    }
                },
            }
        }
        std::mem::swap(&mut self.entries, &mut entries);
        assert(self.entries() =~= after);
    }

    /// How many shapes have a name.
    pub fn count(&self) -> (r: usize)
        ensures
            self@.dom().finite(),
            r == self@.dom().len(),
    {
        proof {
            use_type_invariant(self);
            lemma_names_of_count(self.entries());
        }
        self.entries.len()
    }
}

impl View for ObjectTypeTable {
    type V = Names;

    closed spec fn view(&self) -> Names {
        names_of(self.entries())
    }
}

impl Default for ObjectTypeTable {
    fn default() -> (r: ObjectTypeTable)
        ensures
            r@ == Names::empty(),
    {
        ObjectTypeTable::new()
    }
}

} // verus!
