//! The data carried by nodes and attached objects: an [`Object`] maps
//! field names to [`Field`]s, which may nest arrays and objects.
//!
//! An object's value is the map from field-name text to the value of
//! each field ([`FieldV`]); the order in which fields were inserted is
//! not part of it, so two objects are equal when they hold the same
//! fields with equal values.

use vstd::prelude::*;

use crate::common::global_path::{Pointee, PointeeV};
use crate::common::text::str_eq;

verus! {

broadcast use vstd::std_specs::vec::group_vec_axioms;

/// The mathematical value of a [`Field`].
pub enum FieldV {
    Array(Seq<FieldV>),
    Object(Map<Seq<char>, FieldV>),
    Str(Seq<char>),
    Bool(bool),
    Number(i128),
    Link(PointeeV),
    Null,
}

/// One value stored in an object.
#[derive(Debug)]
pub enum Field {
    // ------- composite types --------------
    Array(Vec<Field>),
    Object(Object),
    // ------- fundamental types ------------
    String(String),
    Bool(bool),
    Number(i128),
    Link(Pointee),
    Null,
}

/// A map from field names to fields.
#[derive(Debug)]
pub struct Object {
    entries: Vec<(String, Field)>,
}

/// The value of a field.
pub open spec fn field_view(f: Field) -> FieldV
    decreases f,
{
    match f {
        Field::Array(v) => FieldV::Array(fields_view(v@)),
        Field::Object(o) => FieldV::Object(object_view(o)),
        Field::String(s) => FieldV::Str(s@),
        Field::Bool(b) => FieldV::Bool(b),
        Field::Number(n) => FieldV::Number(n),
        Field::Link(p) => FieldV::Link(p@),
        Field::Null => FieldV::Null,
    }
}

/// The values of a sequence of fields.
pub open spec fn fields_view(s: Seq<Field>) -> Seq<FieldV>
    decreases s,
{
    if s.len() == 0 {
        Seq::<FieldV>::empty()
    } else {
        fields_view(s.drop_last()).push(field_view(s.last()))
    }
}

/// The value of an object: field-name text to field value.
pub closed spec fn object_view(o: Object) -> Map<Seq<char>, FieldV>
    decreases o,
{
    entries_view(o.entries@)
}

/// The map a list of entries stands for (a later entry wins).
pub closed spec fn entries_view(s: Seq<(String, Field)>) -> Map<Seq<char>, FieldV>
    decreases s,
{
    if s.len() == 0 {
        Map::<Seq<char>, FieldV>::empty()
    } else {
        entries_view(s.drop_last()).insert(s.last().0@, field_view(s.last().1))
    }
}

impl View for Field {
    type V = FieldV;

    open spec fn view(&self) -> FieldV {
        field_view(*self)
    }
}

impl View for Object {
    type V = Map<Seq<char>, FieldV>;

    open spec fn view(&self) -> Map<Seq<char>, FieldV> {
        object_view(*self)
    }
}

/// The keys of a list of entries are pairwise distinct.
pub closed spec fn keys_unique(s: Seq<(String, Field)>) -> bool {
    forall|i: int, j: int| 0 <= i < j < s.len() ==> (#[trigger] s[i]).0@ != (#[trigger] s[j]).0@
}

pub proof fn lemma_fields_view(s: Seq<Field>)
    ensures
        fields_view(s).len() == s.len(),
        forall|i: int| 0 <= i < s.len() ==> #[trigger] fields_view(s)[i] == field_view(s[i]),
    decreases s.len(),
{
    if s.len() > 0 {
        lemma_fields_view(s.drop_last());
        assert forall|i: int| 0 <= i < s.len() implies #[trigger] fields_view(s)[i] == field_view(s[i]) by {
            if i < s.len() - 1 {
                assert(s.drop_last()[i] == s[i]);
            }
        }
    }
}

proof fn lemma_entries_view(s: Seq<(String, Field)>)
    ensures
        entries_view(s).dom().finite(),
        forall|k: Seq<char>| #[trigger] entries_view(s).contains_key(k) <==> exists|i: int| 0 <= i < s.len() && (#[trigger] s[i]).0@ == k,
        keys_unique(s) ==> forall|i: int| 0 <= i < s.len() ==> #[trigger] entries_view(s)[s[i].0@] == field_view(s[i].1),
        keys_unique(s) ==> entries_view(s).dom().len() == s.len(),
    decreases s.len(),
{
    if s.len() > 0 {
        let p = s.drop_last();
        lemma_entries_view(p);
        assert forall|k: Seq<char>| #[trigger] entries_view(s).contains_key(k) <==> exists|i: int| 0 <= i < s.len() && (#[trigger] s[i]).0@ == k by {
            if entries_view(s).contains_key(k) && k != s.last().0@ {
                let i = choose|i: int| 0 <= i < p.len() && (#[trigger] p[i]).0@ == k;
                assert(s[i] == p[i]);
            }
            if exists|i: int| 0 <= i < s.len() && (#[trigger] s[i]).0@ == k {
                let i = choose|i: int| 0 <= i < s.len() && (#[trigger] s[i]).0@ == k;
                if i < s.len() - 1 {
                    assert(p[i] == s[i]);
                }
            }
        }
        if keys_unique(s) {
            assert(keys_unique(p)) by {
                assert forall|i: int, j: int| 0 <= i < j < p.len() implies (#[trigger] p[i]).0@ != (#[trigger] p[j]).0@ by {
                    assert(p[i] == s[i] && p[j] == s[j]);
                }
            }
            assert(!entries_view(p).contains_key(s.last().0@)) by {
                if entries_view(p).contains_key(s.last().0@) {
                    let i = choose|i: int| 0 <= i < p.len() && (#[trigger] p[i]).0@ == s.last().0@;
                    assert(s[i] == p[i]);
                    assert(s[s.len() - 1] == s.last());
                }
            }
            assert forall|i: int| 0 <= i < s.len() implies #[trigger] entries_view(s)[s[i].0@] == field_view(s[i].1) by {
                if i < s.len() - 1 {
                    assert(p[i] == s[i]);
                    assert(s[s.len() - 1] == s.last());
                }
            }
        }
    }
}

impl Object {
    #[verifier::type_invariant]
    closed spec fn unique_keys(&self) -> bool {
        keys_unique(self.entries@)
    }

    /// The field names in storage order.
    pub closed spec fn key_seq(&self) -> Seq<Seq<char>> {
        self.entries@.map_values(|e: (String, Field)| e.0@)
    }

    /// Facts about the value of an object: its keys are the stored
    /// names, each stored once.
    proof fn lemma_view(&self)
        requires
            keys_unique(self.entries@),
        ensures
            self@.dom().finite(),
            self@.dom().len() == self.key_seq().len(),
            self.key_seq().no_duplicates(),
            self.key_seq().to_set() == self@.dom(),
    {
        lemma_entries_view(self.entries@);
        assert(self.key_seq().to_set() =~= self@.dom()) by {
            assert forall|k: Seq<char>| self.key_seq().to_set().contains(k) implies self@.dom().contains(k) by {
                let i = choose|i: int| 0 <= i < self.key_seq().len() && self.key_seq()[i] == k;
                assert(self.entries@[i].0@ == k);
            }
            assert forall|k: Seq<char>| self@.dom().contains(k) implies self.key_seq().to_set().contains(k) by {
                let i = choose|i: int| 0 <= i < self.entries@.len() && (#[trigger] self.entries@[i]).0@ == k;
                assert(self.key_seq()[i] == k);
            }
        }
    }

    /// An empty object.
    pub fn new() -> (o: Self)
        ensures
            o@ == Map::<Seq<char>, FieldV>::empty(),
    {
        let o = Object { entries: Vec::new() };
        assert(o@ =~= Map::<Seq<char>, FieldV>::empty());
        o
    }

    /// The number of fields.
    pub fn len(&self) -> (n: usize)
        ensures
            n == self@.dom().len(),
            self@.dom().finite(),
    {
        proof {
            use_type_invariant(self);
            lemma_entries_view(self.entries@);
        }
        self.entries.len()
    }

    /// `true` if the object holds no field.
    pub fn is_empty(&self) -> (b: bool)
        ensures
            b == (self@.dom().len() == 0),
            b == (self@ == Map::<Seq<char>, FieldV>::empty()),
    {
        proof {
            use_type_invariant(self);
            lemma_entries_view(self.entries@);
            if self.entries@.len() > 0 {
                assert(self@.contains_key(self.entries@[0].0@));
            } else {
                assert(self@ =~= Map::<Seq<char>, FieldV>::empty());
            }
        }
        self.entries.len() == 0
    }

    /// The storage position of `name`, if present.
    fn position(&self, name: &str) -> (r: Option<usize>)
        ensures
            match r {
                Some(i) => i < self.entries@.len() && self.entries@[i as int].0@ == name@,
                None => forall|i: int| 0 <= i < self.entries@.len() ==> (#[trigger] self.entries@[i]).0@ != name@,
            },
    {
        let mut i: usize = 0;
        while i < self.entries.len()
            invariant
                i <= self.entries@.len(),
                forall|k: int| 0 <= k < i ==> (#[trigger] self.entries@[k]).0@ != name@,
            decreases self.entries@.len() - i,
        {
            if str_eq(self.entries[i].0.as_str(), name) {
                return Some(i);
            }
            i = i + 1;
        }
        None
    }

    /// Whether `name` is a field of the object.
    pub fn contains_key(&self, name: &str) -> (b: bool)
        ensures
            b == self@.contains_key(name@),
    {
        proof { lemma_entries_view(self.entries@); }
        match self.position(name) {
            Some(_) => true,
            None => false,
        }
    }

    /// The field stored under `name`.
    pub fn get(&self, name: &str) -> (r: Option<&Field>)
        ensures
            match r {
                Some(f) => self@.contains_key(name@) && f@ == self@[name@],
                None => !self@.contains_key(name@),
            },
    {
        proof {
            use_type_invariant(self);
            lemma_entries_view(self.entries@);
        }
        match self.position(name) {
            Some(i) => Some(&self.entries[i].1),
            None => None,
        }
    }

    /// Store `field` under `name`, returning the field it replaces.
    pub fn insert(&mut self, name: String, field: Field) -> (r: Option<Field>)
        ensures
            final(self)@ == old(self)@.insert(name@, field@),
            match r {
                Some(f) => old(self)@.contains_key(name@) && f@ == old(self)@[name@],
                None => !old(self)@.contains_key(name@),
            },
    {
        proof {
            use_type_invariant(&*self);
            lemma_entries_view(self.entries@);
        }
        let ghost fv = field@;
        match self.position(name.as_str()) {
            Some(i) => {
                let ghost before = self.entries@;
                let mut entries = Vec::new();
                std::mem::swap(&mut entries, &mut self.entries);
                let old_entry = entries.remove(i);
                entries.insert(i, (name, field));
                proof {
                    let after = entries@;
                    assert(after =~= before.update(i as int, after[i as int]));
                    assert(keys_unique(after)) by {
                        assert forall|a: int, b: int| 0 <= a < b < after.len() implies (#[trigger] after[a]).0@ != (#[trigger] after[b]).0@ by {
                            if a != i && b != i {
                                assert(after[a] == before[a] && after[b] == before[b]);
                            } else if a == i {
                                assert(after[b] == before[b]);
                            } else {
                                assert(after[a] == before[a]);
                            }
                        }
                    }
                    lemma_entries_view(after);
                    assert(entries_view(after) =~= entries_view(before).insert(name@, fv)) by {
                        assert forall|k: Seq<char>| entries_view(after).contains_key(k) <==> entries_view(before).insert(name@, fv).contains_key(k) by {
                            if entries_view(after).contains_key(k) {
                                let j = choose|j: int| 0 <= j < after.len() && (#[trigger] after[j]).0@ == k;
                                if j != i {
                                    assert(after[j] == before[j]);
                                }
                            }
                            if entries_view(before).contains_key(k) {
                                let j = choose|j: int| 0 <= j < before.len() && (#[trigger] before[j]).0@ == k;
                                if j != i {
                                    assert(after[j] == before[j]);
                                } else {
                                    assert(after[i as int].0@ == k);
                                }
                            }
                            if k == name@ {
                                assert(after[i as int].0@ == k);
                            }
                        }
                        assert forall|k: Seq<char>| entries_view(after).contains_key(k) implies entries_view(after)[k] == entries_view(before).insert(name@, fv)[k] by {
                            let j = choose|j: int| 0 <= j < after.len() && (#[trigger] after[j]).0@ == k;
                            if j != i {
                                assert(after[j] == before[j]);
                            }
                        }
                    }
                }
                self.entries = entries;
                Some(old_entry.1)
            },
            None => {
                let ghost before = self.entries@;
                let ghost nv = name@;
                let mut entries = Vec::new();
                std::mem::swap(&mut entries, &mut self.entries);
                entries.push((name, field));
                proof {
                    let after = entries@;
                    assert(after.drop_last() =~= before);
                    assert(keys_unique(after)) by {
                        assert forall|a: int, b: int| 0 <= a < b < after.len() implies (#[trigger] after[a]).0@ != (#[trigger] after[b]).0@ by {
                            assert(after[a] == before[a]);
                            if b < before.len() {
                                assert(after[b] == before[b]);
                            }
                        }
                    }
                    assert(after.last().0@ == nv);
                }
                self.entries = entries;
                None
            },
        }
    }

    /// Remove the field stored under `name`, returning it.
    pub fn remove(&mut self, name: &str) -> (r: Option<Field>)
        ensures
            final(self)@ == old(self)@.remove(name@),
            match r {
                Some(f) => old(self)@.contains_key(name@) && f@ == old(self)@[name@],
                None => !old(self)@.contains_key(name@),
            },
    {
        proof {
            use_type_invariant(&*self);
            lemma_entries_view(self.entries@);
        }
        match self.position(name) {
            Some(i) => {
                let ghost before = self.entries@;
                let mut entries = Vec::new();
                std::mem::swap(&mut entries, &mut self.entries);
                let old_entry = entries.remove(i);
                proof {
                    let after = entries@;
                    assert(after =~= before.remove(i as int));
                    assert forall|j: int| 0 <= j < after.len() implies (#[trigger] after[j]) == before[if j < i { j } else { j + 1 }] by {}
                    assert(keys_unique(after)) by {
                        assert forall|a: int, b: int| 0 <= a < b < after.len() implies (#[trigger] after[a]).0@ != (#[trigger] after[b]).0@ by {
                            assert(after[a] == before[if a < i { a } else { a + 1 }]);
                            assert(after[b] == before[if b < i { b } else { b + 1 }]);
                        }
                    }
                    lemma_entries_view(after);
                    assert(entries_view(after) =~= entries_view(before).remove(name@)) by {
                        assert forall|k: Seq<char>| entries_view(after).contains_key(k) <==> entries_view(before).remove(name@).contains_key(k) by {
                            if entries_view(after).contains_key(k) {
                                let j = choose|j: int| 0 <= j < after.len() && (#[trigger] after[j]).0@ == k;
                                assert(after[j] == before[if j < i { j } else { j + 1 }]);
                            }
                            if entries_view(before).contains_key(k) && k != name@ {
                                let j = choose|j: int| 0 <= j < before.len() && (#[trigger] before[j]).0@ == k;
                                assert(j != i);
                                let jj = if j < i { j } else { j - 1 };
                                assert(after[jj] == before[j]);
                            }
                        }
                        assert forall|k: Seq<char>| entries_view(after).contains_key(k) implies entries_view(after)[k] == entries_view(before).remove(name@)[k] by {
                            let j = choose|j: int| 0 <= j < after.len() && (#[trigger] after[j]).0@ == k;
                            assert(after[j] == before[if j < i { j } else { j + 1 }]);
                        }
                    }
                }
                self.entries = entries;
                Some(old_entry.1)
            },
            None => {
                assert(self@ =~= self@.remove(name@));
                None
            },
        }
    }

    /// The field name stored at position `i` (positions run over
    /// [`Object::key_seq`]).
    pub fn key_at(&self, i: usize) -> (k: &String)
        requires
            i < self.key_seq().len(),
        ensures
            k@ == self.key_seq()[i as int],
    {
        &self.entries[i].0
    }

    /// The field stored at position `i`.
    pub fn field_at(&self, i: usize) -> (f: &Field)
        requires
            i < self.key_seq().len(),
        ensures
            self@.contains_key(self.key_seq()[i as int]),
            f@ == self@[self.key_seq()[i as int]],
    {
        proof {
            use_type_invariant(self);
            lemma_entries_view(self.entries@);
        }
        &self.entries[i].1
    }

    /// The number of stored positions, and what they run over.
    pub fn positions(&self) -> (n: usize)
        ensures
            n == self.key_seq().len(),
            n == self@.dom().len(),
            self.key_seq().no_duplicates(),
            self.key_seq().to_set() == self@.dom(),
            self@.dom().finite(),
    {
        proof {
            use_type_invariant(self);
            self.lemma_view();
        }
        self.entries.len()
    }
}

/// Whether two fields have the same value.
pub fn field_eq(a: &Field, b: &Field) -> (r: bool)
    ensures
        r == (a@ == b@),
    decreases a,
{
    match (a, b) {
        (Field::Array(x), Field::Array(y)) => {
            assert(*a == Field::Array(*x));
            assert(field_view(*a) == FieldV::Array(fields_view(x@)));
            proof {
                lemma_fields_view(x@);
                lemma_fields_view(y@);
            }
            if x.len() != y.len() {
                return false;
            }
            let mut i: usize = 0;
            while i < x.len()
                invariant
                    *a == Field::Array(*x),
                    *b == Field::Array(*y),
                    x@.len() == y@.len(),
                    i <= x@.len(),
                    forall|k: int| 0 <= k < i ==> field_view(#[trigger] x@[k]) == field_view(y@[k]),
                    fields_view(x@).len() == x@.len(),
                    fields_view(y@).len() == y@.len(),
                    forall|k: int| 0 <= k < x@.len() ==> #[trigger] fields_view(x@)[k] == field_view(x@[k]),
                    forall|k: int| 0 <= k < y@.len() ==> #[trigger] fields_view(y@)[k] == field_view(y@[k]),
                decreases x@.len() - i,
            {
                assert(decreases_to!(*a => x@[i as int])) by {
                    assert(decreases_to!(*a => *x));
                    assert(decreases_to!(*x => x@[i as int]));
                }
                if !field_eq(&x[i], &y[i]) {
                    assert(fields_view(x@)[i as int] != fields_view(y@)[i as int]);
                    assert(a@ == FieldV::Array(fields_view(x@)));
                    assert(b@ == FieldV::Array(fields_view(y@)));
                    return false;
                }
                i = i + 1;
            }
            assert(fields_view(x@) =~= fields_view(y@));
            true
        },
        (Field::Object(x), Field::Object(y)) => object_eq(x, y),
        (Field::String(x), Field::String(y)) => str_eq(x.as_str(), y.as_str()),
        (Field::Bool(x), Field::Bool(y)) => *x == *y,
        (Field::Number(x), Field::Number(y)) => *x == *y,
        (Field::Link(x), Field::Link(y)) => x.same_as(y),
        (Field::Null, Field::Null) => true,
        _ => false,
    }
}

/// Whether two objects have the same fields with equal values.
pub fn object_eq(a: &Object, b: &Object) -> (r: bool)
    ensures
        r == (a@ == b@),
    decreases a,
{
    proof {
        use_type_invariant(a);
        use_type_invariant(b);
        lemma_entries_view(a.entries@);
        lemma_entries_view(b.entries@);
    }
    let mut i: usize = 0;
    while i < a.entries.len()
        invariant
            i <= a.entries@.len(),
            keys_unique(a.entries@),
            keys_unique(b.entries@),
            forall|k: int| 0 <= k < i ==> #[trigger] b@.contains_key(a.entries@[k].0@)
                && b@[a.entries@[k].0@] == a@[a.entries@[k].0@],
            forall|k: int| 0 <= k < a.entries@.len() ==> #[trigger] a@[a.entries@[k].0@] == field_view(a.entries@[k].1),
            forall|k: int| 0 <= k < b.entries@.len() ==> #[trigger] b@[b.entries@[k].0@] == field_view(b.entries@[k].1),
            forall|key: Seq<char>| #[trigger] a@.contains_key(key) <==> exists|k: int| 0 <= k < a.entries@.len() && (#[trigger] a.entries@[k]).0@ == key,
            forall|key: Seq<char>| #[trigger] b@.contains_key(key) <==> exists|k: int| 0 <= k < b.entries@.len() && (#[trigger] b.entries@[k]).0@ == key,
        decreases a.entries@.len() - i,
    {
        let name = a.entries[i].0.as_str();
        assert(name@ == a.entries@[i as int].0@);
        let pos = b.position(name);
        match pos {
            None => {
                assert(a@.contains_key(a.entries@[i as int].0@));
                return false;
            },
            Some(j) => {
                assert(decreases_to!(a => a.entries@[i as int].1)) by {
                    assert(decreases_to!(a => a.entries));
                    assert(decreases_to!(a.entries => a.entries@[i as int]));
                    assert(decreases_to!(a.entries@[i as int] => a.entries@[i as int].1));
                }
                let same = field_eq(&a.entries[i].1, &b.entries[j].1);
                assert(a@[a.entries@[i as int].0@] == field_view(a.entries@[i as int].1));
                assert(b@[b.entries@[j as int].0@] == field_view(b.entries@[j as int].1));
                if !same {
                    assert(b@[b.entries@[j as int].0@] != a@[a.entries@[i as int].0@]);
                    return false;
                }
                assert(b@.contains_key(b.entries@[j as int].0@));
                assert(b.entries@[j as int].0@ == a.entries@[i as int].0@);
                assert(b@.contains_key(a.entries@[i as int].0@));
                assert(b@[a.entries@[i as int].0@] == a@[a.entries@[i as int].0@]);
                assert forall|kk: int| 0 <= kk < i + 1 implies #[trigger] b@.contains_key(a.entries@[kk].0@)
                    && b@[a.entries@[kk].0@] == a@[a.entries@[kk].0@] by {
                    if kk < i {
                    } else {
                        assert(kk == i);
                    }
                }
            },
        }
        i = i + 1;
    }
    let mut j: usize = 0;
    while j < b.entries.len()
        invariant
            j <= b.entries@.len(),
            forall|k: int| 0 <= k < j ==> #[trigger] a@.contains_key(b.entries@[k].0@),
            forall|key: Seq<char>| #[trigger] a@.contains_key(key) <==> exists|k: int| 0 <= k < a.entries@.len() && (#[trigger] a.entries@[k]).0@ == key,
            forall|key: Seq<char>| #[trigger] b@.contains_key(key) <==> exists|k: int| 0 <= k < b.entries@.len() && (#[trigger] b.entries@[k]).0@ == key,
        decreases b.entries@.len() - j,
    {
        match a.position(b.entries[j].0.as_str()) {
            None => {
                assert(b@.contains_key(b.entries@[j as int].0@));
                return false;
            },
            Some(_) => {},
        }
        j = j + 1;
    }
    assert(a@ =~= b@) by {
        assert forall|key: Seq<char>| #[trigger] a@.contains_key(key) implies b@.contains_key(key) && b@[key] == a@[key] by {
            let k = choose|k: int| 0 <= k < a.entries@.len() && (#[trigger] a.entries@[k]).0@ == key;
        }
        assert forall|key: Seq<char>| #[trigger] b@.contains_key(key) implies a@.contains_key(key) by {
            let k = choose|k: int| 0 <= k < b.entries@.len() && (#[trigger] b.entries@[k]).0@ == key;
        }
    }
    true
}

proof fn lemma_entries_view_congruent(s1: Seq<(String, Field)>, s2: Seq<(String, Field)>)
    requires
        s1.len() == s2.len(),
        forall|k: int| 0 <= k < s1.len() ==> (#[trigger] s1[k]).0@ == s2[k].0@ && field_view(s1[k].1) == field_view(s2[k].1),
    ensures
        entries_view(s1) == entries_view(s2),
        keys_unique(s1) ==> keys_unique(s2),
    decreases s1.len(),
{
    if s1.len() > 0 {
        lemma_entries_view_congruent(s1.drop_last(), s2.drop_last());
        assert(s1.last() == s1[s1.len() - 1]);
        assert(s2.last() == s2[s2.len() - 1]);
    }
    if keys_unique(s1) {
        assert forall|i: int, j: int| 0 <= i < j < s2.len() implies (#[trigger] s2[i]).0@ != (#[trigger] s2[j]).0@ by {
            assert(s1[i].0@ == s2[i].0@ && s1[j].0@ == s2[j].0@);
        }
    }
}

/// A copy of a field with the same value.
pub fn clone_field(f: &Field) -> (r: Field)
    ensures
        r@ == f@,
    decreases f,
{
    match f {
        Field::Array(v) => {
            let mut out: Vec<Field> = Vec::new();
            let mut i: usize = 0;
            while i < v.len()
                invariant
                    *f == Field::Array(*v),
                    i <= v@.len(),
                    out@.len() == i,
                    forall|k: int| 0 <= k < i ==> field_view(#[trigger] out@[k]) == field_view(v@[k]),
                decreases v@.len() - i,
            {
                assert(decreases_to!(*f => v@[i as int])) by {
                    assert(*f == Field::Array(*v));
                    assert(decreases_to!(*f => (*f)->Array_0));
                    assert(decreases_to!(*v => v@[i as int]));
                }
                let c = clone_field(&v[i]);
                out.push(c);
                i = i + 1;
            }
            proof {
                lemma_fields_view(out@);
                lemma_fields_view(v@);
                assert(fields_view(out@) =~= fields_view(v@));
            }
            Field::Array(out)
        },
        Field::Object(o) => Field::Object(clone_object(o)),
        Field::String(s) => Field::String(s.clone()),
        Field::Bool(b) => Field::Bool(*b),
        Field::Number(n) => Field::Number(*n),
        Field::Link(p) => Field::Link(p.clone()),
        Field::Null => Field::Null,
    }
}

/// A copy of an object with the same value.
pub fn clone_object(o: &Object) -> (r: Object)
    ensures
        r@ == o@,
    decreases o,
{
    proof { use_type_invariant(o); }
    let mut out: Vec<(String, Field)> = Vec::new();
    let mut i: usize = 0;
    while i < o.entries.len()
        invariant
            i <= o.entries@.len(),
            out@.len() == i,
            forall|k: int| 0 <= k < i ==> (#[trigger] out@[k]).0@ == o.entries@[k].0@
                && field_view(out@[k].1) == field_view(o.entries@[k].1),
        decreases o.entries@.len() - i,
    {
        assert(decreases_to!(*o => o.entries@[i as int].1)) by {
            assert(decreases_to!(*o => o.entries));
            assert(decreases_to!(o.entries => o.entries@[i as int]));
            assert(decreases_to!(o.entries@[i as int] => o.entries@[i as int].1));
        }
        let k = o.entries[i].0.clone();
        let f = clone_field(&o.entries[i].1);
        out.push((k, f));
        i = i + 1;
    }
    proof {
        lemma_entries_view_congruent(o.entries@, out@);
    }
    Object { entries: out }
}

impl Clone for Field {
    fn clone(&self) -> (r: Self)
        ensures
            r@ == self@,
    {
        clone_field(self)
    }
}

impl Clone for Object {
    fn clone(&self) -> (r: Self)
        ensures
            r@ == self@,
    {
        clone_object(self)
    }
}

impl PartialEq for Field {
    fn eq(&self, other: &Self) -> (r: bool) {
        field_eq(self, other)
    }
}

impl vstd::std_specs::cmp::PartialEqSpecImpl for Field {
    open spec fn obeys_eq_spec() -> bool {
        true
    }

    open spec fn eq_spec(&self, other: &Self) -> bool {
        self@ == other@
    }
}

impl PartialEq for Object {
    fn eq(&self, other: &Self) -> (r: bool) {
        object_eq(self, other)
    }
}

impl vstd::std_specs::cmp::PartialEqSpecImpl for Object {
    open spec fn obeys_eq_spec() -> bool {
        true
    }

    open spec fn eq_spec(&self, other: &Self) -> bool {
        self@ == other@
    }
}

} // verus!
