//! Functions over objects: apply a sequence of [`ObjectPatch`]es to an
//! object in place, and diff two objects into such a sequence.

use vstd::prelude::*;

use crate::common::object::{clone_field, field_eq, field_view, fields_view, lemma_fields_view, Field, FieldV, Object};
use crate::common::patch::ObjectPatch;

verus! {

/// Errors returned while applying a single [`ObjectPatch`] to an object.
#[derive(Debug, PartialEq)]
pub enum ObjectPatchError {
    /// `AddField` on a name that already exists.
    FieldAlreadyExists { field_name: String },
    /// `RemoveField` / `ArrayPatch` / `SubObjectPatch` referenced a
    /// name that's not in the object.
    FieldNotFound { field_name: String },
    /// Path navigation landed on a non-`Object` field.
    NotAnObject { field_name: String },
    /// `ArrayPatch` named a field that is not a `Field::Array`.
    NotAnArray { field_name: String },
    /// An array index is past the array's bounds at apply time.
    IndexOutOfBounds { index: usize },
}

/// The value of an [`ObjectPatchError`].
pub enum ObjectPatchErrorV {
    FieldAlreadyExists(Seq<char>),
    FieldNotFound(Seq<char>),
    NotAnObject(Seq<char>),
    NotAnArray(Seq<char>),
    IndexOutOfBounds(usize),
}

impl View for ObjectPatchError {
    type V = ObjectPatchErrorV;

    open spec fn view(&self) -> ObjectPatchErrorV {
        match self {
            ObjectPatchError::FieldAlreadyExists { field_name } => ObjectPatchErrorV::FieldAlreadyExists(field_name@),
            ObjectPatchError::FieldNotFound { field_name } => ObjectPatchErrorV::FieldNotFound(field_name@),
            ObjectPatchError::NotAnObject { field_name } => ObjectPatchErrorV::NotAnObject(field_name@),
            ObjectPatchError::NotAnArray { field_name } => ObjectPatchErrorV::NotAnArray(field_name@),
            ObjectPatchError::IndexOutOfBounds { index } => ObjectPatchErrorV::IndexOutOfBounds(*index),
        }
    }
}

/// The value of an object.
pub type ObjV = Map<Seq<char>, FieldV>;

/// What applying patches does: the object afterwards together with
/// the error that stopped it (changes made before the error stay), or
/// `Panic` where the array removals run past the end of an array.
pub enum Applied {
    Done(ObjV, Option<ObjectPatchErrorV>),
    Panic,
}

/// Insert `x` into the descending sequence `s`, before its first
/// element that is not larger.
pub open spec fn insert_desc(s: Seq<usize>, x: usize) -> Seq<usize>
    decreases s.len(),
{
    if s.len() == 0 {
        seq![x]
    } else if s[0] <= x {
        seq![x] + s
    } else {
        seq![s[0]] + insert_desc(s.drop_first(), x)
    }
}

/// `s` sorted from the largest index to the smallest.
pub open spec fn sort_desc(s: Seq<usize>) -> Seq<usize>
    decreases s.len(),
{
    if s.len() == 0 {
        s
    } else {
        insert_desc(sort_desc(s.drop_last()), s.last())
    }
}

/// Insert `x` into the sequence `s` (sorted by position) after every
/// element whose position is not larger: equal positions keep their
/// order of arrival.
pub open spec fn insert_by_index(s: Seq<(usize, Field)>, x: (usize, Field)) -> Seq<(usize, Field)>
    decreases s.len(),
{
    if s.len() == 0 {
        seq![x]
    } else if x.0 < s[0].0 {
        seq![x] + s
    } else {
        seq![s[0]] + insert_by_index(s.drop_first(), x)
    }
}

/// `s` sorted by position, stably.
pub open spec fn sort_by_index(s: Seq<(usize, Field)>) -> Seq<(usize, Field)>
    decreases s.len(),
{
    if s.len() == 0 {
        s
    } else {
        insert_by_index(sort_by_index(s.drop_last()), s.last())
    }
}

/// The first index in `idxs` (in the given order) that is not below
/// `len`.
pub open spec fn first_out_of_bounds(idxs: Seq<usize>, len: nat) -> Option<usize>
    decreases idxs.len(),
{
    if idxs.len() == 0 {
        None
    } else if idxs[0] >= len {
        Some(idxs[0])
    } else {
        first_out_of_bounds(idxs.drop_first(), len)
    }
}

/// Remove the positions `idxs` one after the other; `None` where a
/// position is past the end at its turn.
pub open spec fn remove_each(arr: Seq<FieldV>, idxs: Seq<usize>) -> Option<Seq<FieldV>>
    decreases idxs.len(),
{
    if idxs.len() == 0 {
        Some(arr)
    } else if idxs[0] >= arr.len() {
        None
    } else {
        remove_each(arr.remove(idxs[0] as int), idxs.drop_first())
    }
}

/// Insert the fields at their positions one after the other; stops at
/// the first position past the end and reports it.
pub open spec fn insert_each(arr: Seq<FieldV>, adds: Seq<(usize, Field)>) -> (Seq<FieldV>, Option<usize>)
    decreases adds.len(),
{
    if adds.len() == 0 {
        (arr, None)
    } else if adds[0].0 > arr.len() {
        (arr, Some(adds[0].0))
    } else {
        insert_each(arr.insert(adds[0].0 as int, adds[0].1@), adds.drop_first())
    }
}

/// The array patch applied to an array value.
pub open spec fn array_patch_spec(o: ObjV, name: Seq<char>, arr: Seq<FieldV>, removed: Seq<usize>, added: Seq<(usize, Field)>) -> Applied {
    match first_out_of_bounds(removed, arr.len()) {
        Some(i) => Applied::Done(o, Some(ObjectPatchErrorV::IndexOutOfBounds(i))),
        None => match remove_each(arr, sort_desc(removed)) {
            None => Applied::Panic,
            Some(arr1) => {
                let (arr2, bad) = insert_each(arr1, sort_by_index(added));
                Applied::Done(
                    o.insert(name, FieldV::Array(arr2)),
                    match bad {
                        Some(i) => Some(ObjectPatchErrorV::IndexOutOfBounds(i)),
                        None => None,
                    },
                )
            },
        },
    }
}

/// The positions of `s` strictly increase.
pub open spec fn strictly_by_index(s: Seq<(usize, Field)>) -> bool {
    forall|a: int, b: int| 0 <= a < b < s.len() ==> (#[trigger] s[a]).0 < (#[trigger] s[b]).0
}

/// No two entries of `s` name the same position.
pub open spec fn distinct_indices(s: Seq<(usize, Field)>) -> bool {
    forall|a: int, b: int| 0 <= a < s.len() && 0 <= b < s.len() && a != b ==> (#[trigger] s[a]).0 != (#[trigger] s[b]).0
}

proof fn lemma_insert_by_index_strict(s: Seq<(usize, Field)>, x: (usize, Field))
    requires
        strictly_by_index(s),
        forall|k: int| 0 <= k < s.len() ==> (#[trigger] s[k]).0 != x.0,
    ensures
        insert_by_index(s, x).len() == s.len() + 1,
        strictly_by_index(insert_by_index(s, x)),
        forall|j: int| 0 <= j < s.len() + 1 ==> #[trigger] insert_by_index(s, x)[j] == x
            || s.contains(insert_by_index(s, x)[j]),
        insert_by_index(s, x).contains(x),
        forall|k: int| 0 <= k < s.len() ==> insert_by_index(s, x).contains(#[trigger] s[k]),
    decreases s.len(),
{
    let r = insert_by_index(s, x);
    if s.len() == 0 {
        assert(r[0] == x);
    } else if x.0 < s[0].0 {
        assert(r == seq![x] + s);
        assert(r[0] == x);
        assert forall|k: int| 0 <= k < s.len() implies r.contains(#[trigger] s[k]) by {
            assert(r[k + 1] == s[k]);
        }
        assert forall|j: int| 0 <= j < s.len() + 1 implies #[trigger] r[j] == x || s.contains(r[j]) by {
            if j > 0 {
                assert(r[j] == s[j - 1]);
            }
        }
        assert forall|a: int, b: int| 0 <= a < b < r.len() implies (#[trigger] r[a]).0 < (#[trigger] r[b]).0 by {
            if a > 0 {
                assert(r[a] == s[a - 1] && r[b] == s[b - 1]);
            } else {
                assert(r[b] == s[b - 1]);
                if b - 1 > 0 {
                    assert(s[0].0 < s[b - 1].0);
                }
            }
        }
    } else {
        let t = s.drop_first();
        assert forall|a: int, b: int| 0 <= a < b < t.len() implies (#[trigger] t[a]).0 < (#[trigger] t[b]).0 by {
            assert(t[a] == s[a + 1] && t[b] == s[b + 1]);
        }
        assert forall|k: int| 0 <= k < t.len() implies (#[trigger] t[k]).0 != x.0 by {
            assert(t[k] == s[k + 1]);
        }
        lemma_insert_by_index_strict(t, x);
        let q = insert_by_index(t, x);
        assert(r == seq![s[0]] + q);
        assert(x.0 > s[0].0) by {
            assert(s[0].0 != x.0);
        }
        assert forall|j: int| 0 <= j < s.len() + 1 implies #[trigger] r[j] == x || s.contains(r[j]) by {
            if j == 0 {
                assert(s[0] == r[0]);
            } else {
                assert(r[j] == q[j - 1]);
                if q[j - 1] != x {
                    let k = choose|k: int| 0 <= k < t.len() && t[k] == q[j - 1];
                    assert(s[k + 1] == t[k]);
                }
            }
        }
        assert forall|a: int, b: int| 0 <= a < b < r.len() implies (#[trigger] r[a]).0 < (#[trigger] r[b]).0 by {
            assert(r[b] == q[b - 1]);
            if a > 0 {
                assert(r[a] == q[a - 1]);
            } else {
                if q[b - 1] != x {
                    let k = choose|k: int| 0 <= k < t.len() && t[k] == q[b - 1];
                    assert(t[k] == s[k + 1]);
                }
            }
        }
        let jx = choose|j: int| 0 <= j < q.len() && q[j] == x;
        assert(r[jx + 1] == x);
        assert forall|k: int| 0 <= k < s.len() implies r.contains(#[trigger] s[k]) by {
            if k == 0 {
                assert(r[0] == s[0]);
            } else {
                assert(t[k - 1] == s[k]);
                assert(q.contains(t[k - 1]));
                let j = choose|j: int| 0 <= j < q.len() && q[j] == t[k - 1];
                assert(r[j + 1] == s[k]);
            }
        }
    }
}

proof fn lemma_sort_by_index_strict(s: Seq<(usize, Field)>)
    requires
        distinct_indices(s),
    ensures
        sort_by_index(s).len() == s.len(),
        strictly_by_index(sort_by_index(s)),
        forall|j: int| 0 <= j < s.len() ==> s.contains(#[trigger] sort_by_index(s)[j]),
        forall|k: int| 0 <= k < s.len() ==> sort_by_index(s).contains(#[trigger] s[k]),
    decreases s.len(),
{
    if s.len() > 0 {
        let d = s.drop_last();
        let x = s.last();
        assert forall|a: int, b: int| 0 <= a < d.len() && 0 <= b < d.len() && a != b implies (#[trigger] d[a]).0 != (#[trigger] d[b]).0 by {
            assert(d[a] == s[a] && d[b] == s[b]);
        }
        lemma_sort_by_index_strict(d);
        let q = sort_by_index(d);
        assert forall|k: int| 0 <= k < q.len() implies (#[trigger] q[k]).0 != x.0 by {
            let i = choose|i: int| 0 <= i < d.len() && d[i] == q[k];
            assert(d[i] == s[i]);
            assert(s[s.len() - 1] == x);
        }
        lemma_insert_by_index_strict(q, x);
        let r = sort_by_index(s);
        assert(r == insert_by_index(q, x));
        assert forall|j: int| 0 <= j < s.len() implies s.contains(#[trigger] r[j]) by {
            if r[j] == x {
                assert(s[s.len() - 1] == x);
            } else {
                let k = choose|k: int| 0 <= k < q.len() && q[k] == r[j];
                let i = choose|i: int| 0 <= i < d.len() && d[i] == q[k];
                assert(s[i] == d[i]);
            }
        }
        assert forall|k: int| 0 <= k < s.len() implies r.contains(#[trigger] s[k]) by {
            if k == s.len() - 1 {
                assert(s[k] == x);
            } else {
                assert(d[k] == s[k]);
                assert(q.contains(d[k]));
                let j = choose|j: int| 0 <= j < q.len() && q[j] == d[k];
                assert(r.contains(q[j]));
            }
        }
    }
}

proof fn lemma_index_gap(s: Seq<(usize, Field)>, a: int, b: int)
    requires
        strictly_by_index(s),
        0 <= a <= b < s.len(),
    ensures
        s[b].0 - s[a].0 >= b - a,
    decreases b - a,
{
    if a < b {
        lemma_index_gap(s, a, b - 1);
        assert(s[b - 1].0 < s[b].0);
    }
}

proof fn lemma_insert_each_keeps(arr: Seq<FieldV>, adds: Seq<(usize, Field)>, p: int)
    requires
        0 <= p < arr.len(),
        forall|k: int| 0 <= k < adds.len() ==> (#[trigger] adds[k]).0 > p,
    ensures
        insert_each(arr, adds).0.len() > p,
        insert_each(arr, adds).0[p] == arr[p],
    decreases adds.len(),
{
    if adds.len() > 0 && adds[0].0 <= arr.len() {
        let a1 = arr.insert(adds[0].0 as int, adds[0].1@);
        arr.insert_ensures(adds[0].0 as int, adds[0].1@);
        let t = adds.drop_first();
        assert forall|k: int| 0 <= k < t.len() implies (#[trigger] t[k]).0 > p by {
            assert(t[k] == adds[k + 1]);
        }
        lemma_insert_each_keeps(a1, t, p);
    }
}

proof fn lemma_insert_each_sorted(arr: Seq<FieldV>, adds: Seq<(usize, Field)>)
    requires
        strictly_by_index(adds),
        forall|k: int| 0 <= k < adds.len() ==> (#[trigger] adds[k]).0 < arr.len() + adds.len(),
    ensures
        insert_each(arr, adds).1 is None,
        insert_each(arr, adds).0.len() == arr.len() + adds.len(),
        forall|k: int| 0 <= k < adds.len() ==> insert_each(arr, adds).0[(#[trigger] adds[k]).0 as int] == adds[k].1@,
    decreases adds.len(),
{
    if adds.len() > 0 {
        let m = adds.len();
        lemma_index_gap(adds, 0, m - 1);
        assert(adds[m - 1].0 < arr.len() + m);
        assert(adds[0].0 <= arr.len());
        let a0 = adds[0].0 as int;
        let a1 = arr.insert(a0, adds[0].1@);
        arr.insert_ensures(a0, adds[0].1@);
        let t = adds.drop_first();
        assert forall|a: int, b: int| 0 <= a < b < t.len() implies (#[trigger] t[a]).0 < (#[trigger] t[b]).0 by {
            assert(t[a] == adds[a + 1] && t[b] == adds[b + 1]);
        }
        assert forall|k: int| 0 <= k < t.len() implies (#[trigger] t[k]).0 < a1.len() + t.len() by {
            assert(t[k] == adds[k + 1]);
        }
        lemma_insert_each_sorted(a1, t);
        assert forall|k: int| 0 <= k < t.len() implies (#[trigger] t[k]).0 > a0 by {
            assert(t[k] == adds[k + 1]);
            assert(adds[0].0 < adds[k + 1].0);
        }
        lemma_insert_each_keeps(a1, t, a0);
        assert(insert_each(arr, adds) == insert_each(a1, t));
        assert forall|k: int| 0 <= k < adds.len() implies insert_each(arr, adds).0[(#[trigger] adds[k]).0 as int] == adds[k].1@ by {
            if k > 0 {
                assert(adds[k] == t[k - 1]);
            }
        }
    }
}

/// An array patch that removes nothing puts each added field at the
/// position it names, whatever order the fields are listed in, as long
/// as no two name the same position and every position lies within the
/// grown array; the array grows by the number of fields added.
pub proof fn law_array_patch_places_added(o: ObjV, p: ObjectPatch)
    requires
        p matches ObjectPatch::ArrayPatch { name, removed_indices, added_fields }
            && removed_indices@.len() == 0
            && o.contains_key(name@)
            && o[name@] is Array
            && distinct_indices(added_fields@)
            && forall|k: int| 0 <= k < added_fields@.len()
                ==> (#[trigger] added_fields@[k]).0 < o[name@]->Array_0.len() + added_fields@.len(),
    ensures
        match p {
            ObjectPatch::ArrayPatch { name, added_fields, .. } => match apply_one_spec(o, p) {
                Applied::Done(o2, None) => o2.contains_key(name@) && match o2[name@] {
                    FieldV::Array(arr2) => {
                        &&& arr2.len() == o[name@]->Array_0.len() + added_fields@.len()
                        &&& forall|k: int| 0 <= k < added_fields@.len()
                            ==> arr2[(#[trigger] added_fields@[k]).0 as int] == added_fields@[k].1@
                    },
                    _ => false,
                },
                _ => false,
            },
            _ => false,
        },
{
    match p {
        ObjectPatch::ArrayPatch { name, removed_indices, added_fields } => {
            let arr = o[name@]->Array_0;
            let added = added_fields@;
            assert(sort_desc(removed_indices@) =~= removed_indices@);
            lemma_sort_by_index_strict(added);
            let sorted = sort_by_index(added);
            assert forall|k: int| 0 <= k < sorted.len() implies (#[trigger] sorted[k]).0 < arr.len() + sorted.len() by {
                assert(added.contains(sorted[k]));
                let i = choose|i: int| 0 <= i < added.len() && added[i] == sorted[k];
            }
            lemma_insert_each_sorted(arr, sorted);
            assert forall|k: int| 0 <= k < added.len() implies insert_each(arr, sorted).0[(#[trigger] added[k]).0 as int] == added[k].1@ by {
                assert(sorted.contains(added[k]));
                let j = choose|j: int| 0 <= j < sorted.len() && sorted[j] == added[k];
            }
        },
        _ => {},
    }
}

/// Apply patches in order, stopping at the first error.
pub open spec fn apply_patches_spec(o: ObjV, ps: Seq<ObjectPatch>) -> Applied
    decreases ps, 0nat,
{
    if ps.len() == 0 {
        Applied::Done(o, None)
    } else {
        match apply_patches_spec(o, ps.drop_last()) {
            Applied::Done(o1, None) => apply_one_spec(o1, ps.last()),
            other => other,
        }
    }
}

/// Object patches apply left to right: applying two sequences one
/// after the other is applying their concatenation, and where the first
/// stops at an error nothing after it applies.
pub proof fn law_object_patches_concat(o: ObjV, p: Seq<ObjectPatch>, q: Seq<ObjectPatch>)
    ensures
        apply_patches_spec(o, p + q) == match apply_patches_spec(o, p) {
            Applied::Done(o1, None) => apply_patches_spec(o1, q),
            other => other,
        },
    decreases q.len(),
{
    if q.len() == 0 {
        assert(p + q =~= p);
    } else {
        law_object_patches_concat(o, p, q.drop_last());
        assert((p + q).drop_last() =~= p + q.drop_last());
        assert((p + q).last() == q.last());
    }
}

/// Apply one patch.
pub open spec fn apply_one_spec(o: ObjV, p: ObjectPatch) -> Applied
    decreases p, 0nat,
{
    match p {
        ObjectPatch::AddField { name, field } => if o.contains_key(name@) {
            Applied::Done(o, Some(ObjectPatchErrorV::FieldAlreadyExists(name@)))
        } else {
            Applied::Done(o.insert(name@, field@), None)
        },
        ObjectPatch::RemoveField { name } => if o.contains_key(name@) {
            Applied::Done(o.remove(name@), None)
        } else {
            Applied::Done(o, Some(ObjectPatchErrorV::FieldNotFound(name@)))
        },
        ObjectPatch::UpsertField { name, field } => Applied::Done(o.insert(name@, field@), None),
        ObjectPatch::ArrayPatch { name, removed_indices, added_fields } => if !o.contains_key(name@) {
            Applied::Done(o, Some(ObjectPatchErrorV::FieldNotFound(name@)))
        } else {
            match o[name@] {
                FieldV::Array(arr) => array_patch_spec(o, name@, arr, removed_indices@, added_fields@),
                _ => Applied::Done(o, Some(ObjectPatchErrorV::NotAnArray(name@))),
            }
        },
        ObjectPatch::SubObjectPatch { path, delta } => apply_at_spec(o, path.segments(), delta@),
    }
}

/// Apply `delta` to the object reached from `o` by the segments.
pub open spec fn apply_at_spec(o: ObjV, segs: Seq<Seq<char>>, delta: Seq<ObjectPatch>) -> Applied
    decreases delta, segs.len() + 1,
{
    if segs.len() == 0 {
        apply_patches_spec(o, delta)
    } else if !o.contains_key(segs[0]) {
        Applied::Done(o, Some(ObjectPatchErrorV::FieldNotFound(segs[0])))
    } else {
        match o[segs[0]] {
            FieldV::Object(inner) => match apply_at_spec(inner, segs.drop_first(), delta) {
                Applied::Done(inner2, e) => Applied::Done(o.insert(segs[0], FieldV::Object(inner2)), e),
                Applied::Panic => Applied::Panic,
            },
            _ => Applied::Done(o, Some(ObjectPatchErrorV::NotAnObject(segs[0]))),
        }
    }
}

proof fn lemma_insert_desc(s: Seq<usize>, x: usize, k: int)
    requires
        0 <= k <= s.len(),
        forall|j: int| 0 <= j < k ==> s[j] > x,
        k < s.len() ==> s[k] <= x,
    ensures
        insert_desc(s, x) == s.insert(k, x),
    decreases s.len(),
{
    if s.len() == 0 {
        assert(s.insert(k, x) =~= seq![x]);
    } else if s[0] <= x {
        assert(s.insert(k, x) =~= seq![x] + s);
    } else {
        lemma_insert_desc(s.drop_first(), x, k - 1);
        assert(s.insert(k, x) =~= seq![s[0]] + s.drop_first().insert(k - 1, x));
    }
}

/// The indices sorted from the largest to the smallest.
pub fn sort_indices_desc(v: &Vec<usize>) -> (r: Vec<usize>)
    ensures
        r@ == sort_desc(v@),
{
    let mut r: Vec<usize> = Vec::new();
    let mut i: usize = 0;
    while i < v.len()
        invariant
            i <= v@.len(),
            r@ == sort_desc(v@.take(i as int)),
        decreases v@.len() - i,
    {
        let x = v[i];
        let mut k: usize = 0;
        while k < r.len() && r[k] > x
            invariant
                k <= r@.len(),
                forall|j: int| 0 <= j < k ==> r@[j] > x,
            decreases r@.len() - k,
        {
            k = k + 1;
        }
        proof {
            lemma_insert_desc(r@, x, k as int);
            assert(v@.take(i + 1).drop_last() =~= v@.take(i as int));
            assert(v@.take(i + 1).last() == x);
        }
        r.insert(k, x);
        i = i + 1;
    }
    assert(v@.take(v@.len() as int) =~= v@);
    r
}

proof fn lemma_insert_by_index(s: Seq<(usize, Field)>, x: (usize, Field), k: int)
    requires
        0 <= k <= s.len(),
        forall|j: int| 0 <= j < k ==> s[j].0 <= x.0,
        k < s.len() ==> x.0 < s[k].0,
    ensures
        insert_by_index(s, x) == s.insert(k, x),
    decreases s.len(),
{
    if s.len() == 0 {
        assert(s.insert(k, x) =~= seq![x]);
    } else if x.0 < s[0].0 {
        assert(s.insert(k, x) =~= seq![x] + s);
    } else {
        lemma_insert_by_index(s.drop_first(), x, k - 1);
        assert(s.insert(k, x) =~= seq![s[0]] + s.drop_first().insert(k - 1, x));
    }
}

/// The added fields sorted by position, stably.
pub fn sort_added_by_index(v: Vec<(usize, Field)>) -> (r: Vec<(usize, Field)>)
    ensures
        r@ == sort_by_index(v@),
{
    let ghost orig = v@;
    let n = v.len();
    let mut rest = v;
    let mut r: Vec<(usize, Field)> = Vec::new();
    let mut i: usize = 0;
    while rest.len() > 0
        invariant
            i <= orig.len(),
            orig.len() == n,
            rest@ == orig.skip(i as int),
            r@ == sort_by_index(orig.take(i as int)),
        decreases rest@.len(),
    {
        let x = rest.remove(0);
        let mut k: usize = 0;
        while k < r.len() && r[k].0 <= x.0
            invariant
                k <= r@.len(),
                forall|j: int| 0 <= j < k ==> r@[j].0 <= x.0,
            decreases r@.len() - k,
        {
            k = k + 1;
        }
        proof {
            assert(x == orig[i as int]);
            lemma_insert_by_index(r@, x, k as int);
            assert(orig.take(i + 1).drop_last() =~= orig.take(i as int));
            assert(orig.take(i + 1).last() == x);
        }
        r.insert(k, x);
        i = i + 1;
        assert(rest@ =~= orig.skip(i as int));
    }
    assert(orig.take(i as int) =~= orig);
    r
}

proof fn lemma_fields_view_remove(s: Seq<Field>, i: int)
    requires
        0 <= i < s.len(),
    ensures
        fields_view(s.remove(i)) == fields_view(s).remove(i),
{
    lemma_fields_view(s);
    lemma_fields_view(s.remove(i));
    assert(fields_view(s.remove(i)) =~= fields_view(s).remove(i));
}

proof fn lemma_fields_view_insert(s: Seq<Field>, i: int, f: Field)
    requires
        0 <= i <= s.len(),
    ensures
        fields_view(s.insert(i, f)) == fields_view(s).insert(i, field_view(f)),
{
    lemma_fields_view(s);
    lemma_fields_view(s.insert(i, f));
    assert(fields_view(s.insert(i, f)) =~= fields_view(s).insert(i, field_view(f)));
}

/// The error of a patch application, as a value.
pub open spec fn err_view(r: Result<(), ObjectPatchError>) -> Option<ObjectPatchErrorV> {
    match r {
        Ok(()) => None,
        Err(e) => Some(e@),
    }
}

/// Once a prefix of the patches stops (with an error or a panic), the
/// whole sequence stops the same way.
proof fn lemma_prefix_stop(o: ObjV, ps: Seq<ObjectPatch>, j: int)
    requires
        0 <= j <= ps.len(),
        !(apply_patches_spec(o, ps.take(j)) matches Applied::Done(_, None)),
    ensures
        apply_patches_spec(o, ps) == apply_patches_spec(o, ps.take(j)),
    decreases ps.len() - j,
{
    if j == ps.len() {
        assert(ps.take(j) =~= ps);
    } else {
        assert(ps.take(j + 1).drop_last() =~= ps.take(j));
        lemma_prefix_stop(o, ps, j + 1);
    }
}

proof fn lemma_first_oob_skip(idxs: Seq<usize>, len: nat, j: int)
    requires
        0 <= j <= idxs.len(),
        forall|k: int| 0 <= k < j ==> idxs[k] < len,
    ensures
        first_out_of_bounds(idxs, len) == first_out_of_bounds(idxs.skip(j), len),
    decreases j,
{
    if j > 0 {
        lemma_first_oob_skip(idxs.drop_first(), len, j - 1);
        assert(idxs.drop_first().skip(j - 1) =~= idxs.skip(j));
    } else {
        assert(idxs.skip(0) =~= idxs);
    }
}

/// Apply one array patch to the array stored under `name`.
fn apply_array_patch(
    obj: &mut Object,
    name: String,
    removed_indices: Vec<usize>,
    added_fields: Vec<(usize, Field)>,
) -> (r: Result<(), ObjectPatchError>)
    requires
        old(obj)@.contains_key(name@),
        old(obj)@[name@] is Array,
        !(array_patch_spec(old(obj)@, name@, old(obj)@[name@]->Array_0, removed_indices@, added_fields@) is Panic),
    ensures
        array_patch_spec(old(obj)@, name@, old(obj)@[name@]->Array_0, removed_indices@, added_fields@)
            == Applied::Done(final(obj)@, err_view(r)),
{
    let ghost o0 = obj@;
    let ghost arr0 = o0[name@]->Array_0;
    let ghost spec_result = array_patch_spec(o0, name@, arr0, removed_indices@, added_fields@);
    let taken = obj.remove(name.as_str());
    let mut arr = match taken {
        Some(Field::Array(a)) => a,
        Some(other) => {
            assert(false);
            obj.insert(name, other);
            return Ok(());
        },
        None => {
            assert(false);
            return Ok(());
        },
    };
    proof {
        lemma_fields_view(arr@);
        assert(fields_view(arr@) == arr0);
        assert(obj@.insert(name@, FieldV::Array(arr0)) =~= o0);
    }
    // Every removed index must be in bounds before anything changes.
    let mut j: usize = 0;
    while j < removed_indices.len()
        invariant
            o0 == old(obj)@,
            arr0 == o0[name@]->Array_0,
            j <= removed_indices@.len(),
            fields_view(arr@) == arr0,
            obj@ == o0.remove(name@),
            obj@.insert(name@, FieldV::Array(arr0)) == o0,
            spec_result == array_patch_spec(o0, name@, arr0, removed_indices@, added_fields@),
            forall|k: int| 0 <= k < j ==> removed_indices@[k] < arr0.len(),
        decreases removed_indices@.len() - j,
    {
        proof { lemma_fields_view(arr@); }
        if removed_indices[j] >= arr.len() {
            let index = removed_indices[j];
            proof {
                lemma_first_oob_skip(removed_indices@, arr0.len(), j as int);
                assert(removed_indices@.skip(j as int)[0] == index);
            }
            obj.insert(name, Field::Array(arr));
            assert(first_out_of_bounds(removed_indices@, arr0.len()) == Some(index));
            assert(spec_result == Applied::Done(o0, Some(ObjectPatchErrorV::IndexOutOfBounds(index))));
            assert(obj@ == o0);
            let r = Err(ObjectPatchError::IndexOutOfBounds { index });
            assert(err_view(r) == Some(ObjectPatchErrorV::IndexOutOfBounds(index)));
            assert(spec_result == Applied::Done(obj@, err_view(r)));
            return r;
        }
        j = j + 1;
    }
    proof {
        lemma_first_oob_skip(removed_indices@, arr0.len(), removed_indices@.len() as int);
        assert(removed_indices@.skip(removed_indices@.len() as int) =~= Seq::<usize>::empty());
    }
    let sorted = sort_indices_desc(&removed_indices);
    proof {
        assert(sorted@.skip(0) =~= sorted@);
    }
    let mut j: usize = 0;
    while j < sorted.len()
        invariant
            o0 == old(obj)@,
            arr0 == o0[name@]->Array_0,
            j <= sorted@.len(),
            sorted@ == sort_desc(removed_indices@),
            remove_each(arr0, sorted@) == remove_each(fields_view(arr@), sorted@.skip(j as int)),
            remove_each(arr0, sorted@) is Some,
            obj@ == o0.remove(name@),
        decreases sorted@.len() - j,
    {
        proof {
            lemma_fields_view(arr@);
            assert(sorted@.skip(j as int).drop_first() =~= sorted@.skip(j + 1));
            assert(sorted@.skip(j as int)[0] == sorted@[j as int]);
        }
        let idx = sorted[j];
        proof {
            lemma_fields_view_remove(arr@, idx as int);
        }
        arr.remove(idx);
        j = j + 1;
    }
    proof {
        assert(sorted@.skip(sorted@.len() as int) =~= Seq::<usize>::empty());
    }
    let ghost arr1 = fields_view(arr@);
    let adds = sort_added_by_index(added_fields);
    let ghost sorted_adds = adds@;
    let m = adds.len();
    let mut rest = adds;
    let mut k: usize = 0;
    proof {
        assert(sorted_adds.skip(0) =~= sorted_adds);
    }
    while rest.len() > 0
        invariant
            o0 == old(obj)@,
            arr0 == o0[name@]->Array_0,
            spec_result == array_patch_spec(o0, name@, arr0, removed_indices@, added_fields@),
            k <= sorted_adds.len(),
            m == sorted_adds.len(),
            rest@ == sorted_adds.skip(k as int),
            insert_each(arr1, sorted_adds) == insert_each(fields_view(arr@), rest@),
            obj@ == o0.remove(name@),
            spec_result == Applied::Done(
                o0.insert(name@, FieldV::Array(insert_each(arr1, sorted_adds).0)),
                match insert_each(arr1, sorted_adds).1 {
                    Some(i) => Some(ObjectPatchErrorV::IndexOutOfBounds(i)),
                    None => None,
                },
            ),
        decreases rest@.len(),
    {
        let ghost cur_rest = rest@;
        let x = rest.remove(0);
        proof {
            lemma_fields_view(arr@);
            assert(x == cur_rest[0]);
            assert(x == sorted_adds.skip(k as int)[0]);
            assert(rest@ =~= sorted_adds.skip(k as int).drop_first());
        }
        if x.0 > arr.len() {
            let index = x.0;
            obj.insert(name, Field::Array(arr));
            proof {
                assert(insert_each(fields_view(arr@), cur_rest) == (fields_view(arr@), Some(index)));
                assert(obj@ =~= o0.insert(name@, FieldV::Array(insert_each(arr1, sorted_adds).0)));
                assert(insert_each(arr1, sorted_adds).1 == Some(index));
            }
            let r = Err(ObjectPatchError::IndexOutOfBounds { index });
            assert(err_view(r) == Some(ObjectPatchErrorV::IndexOutOfBounds(index)));
            assert(spec_result == Applied::Done(obj@, err_view(r)));
            return r;
        }
        proof {
            lemma_fields_view_insert(arr@, x.0 as int, x.1);
            assert(insert_each(fields_view(arr@), cur_rest) == insert_each(fields_view(arr@).insert(x.0 as int, x.1@), rest@));
        }
        arr.insert(x.0, x.1);
        k = k + 1;
        assert(rest@ =~= sorted_adds.skip(k as int));
    }
    proof {
        assert(insert_each(fields_view(arr@), rest@) == (fields_view(arr@), None::<usize>));
    }
    obj.insert(name, Field::Array(arr));
    proof {
        assert(obj@ =~= o0.insert(name@, FieldV::Array(insert_each(arr1, sorted_adds).0)));
    }
    Ok(())
}

/// Apply one patch to `obj` in place.
fn apply_one(obj: &mut Object, p: ObjectPatch) -> (r: Result<(), ObjectPatchError>)
    requires
        !(apply_one_spec(old(obj)@, p) is Panic),
    ensures
        apply_one_spec(old(obj)@, p) == Applied::Done(final(obj)@, err_view(r)),
    decreases p, 0nat,
{
    let ghost p0 = p;
    match p {
        ObjectPatch::AddField { name, field } => {
            if obj.contains_key(name.as_str()) {
                return Err(ObjectPatchError::FieldAlreadyExists { field_name: name });
            }
            obj.insert(name, field);
            Ok(())
        },
        ObjectPatch::RemoveField { name } => {
            match obj.remove(name.as_str()) {
                Some(_) => Ok(()),
                None => {
                    assert(obj@ =~= old(obj)@);
                    Err(ObjectPatchError::FieldNotFound { field_name: name })
                },
            }
        },
        ObjectPatch::UpsertField { name, field } => {
            obj.insert(name, field);
            Ok(())
        },
        ObjectPatch::ArrayPatch { name, removed_indices, added_fields } => {
            let kind = match obj.get(name.as_str()) {
                None => 0u8,
                Some(Field::Array(_)) => 1u8,
                Some(_) => 2u8,
            };
            if kind == 0 {
                return Err(ObjectPatchError::FieldNotFound { field_name: name });
            }
            if kind == 2 {
                return Err(ObjectPatchError::NotAnArray { field_name: name });
            }
            apply_array_patch(obj, name, removed_indices, added_fields)
        },
        ObjectPatch::SubObjectPatch { path, delta } => {
            let segs = path.iter().collect();
            proof {
                assert(segs@.map_values(|s: String| s@).skip(0) =~= path.segments());
                assert(decreases_to!(p0 => delta@));
            }
            apply_at(obj, &segs, 0, delta)
        },
    }
}

/// Apply `delta` to the object reached from `obj` by `segs[k..]`.
fn apply_at(obj: &mut Object, segs: &Vec<String>, k: usize, delta: Vec<ObjectPatch>) -> (r: Result<(), ObjectPatchError>)
    requires
        k <= segs@.len(),
        !(apply_at_spec(old(obj)@, segs@.map_values(|s: String| s@).skip(k as int), delta@) is Panic),
    ensures
        apply_at_spec(old(obj)@, segs@.map_values(|s: String| s@).skip(k as int), delta@)
            == Applied::Done(final(obj)@, err_view(r)),
    decreases delta@, segs@.len() - k + 1,
{
    let ghost sv = segs@.map_values(|s: String| s@).skip(k as int);
    if k == segs.len() {
        assert(sv.len() == 0);
        return apply_object_patches(obj, delta);
    }
    assert(sv[0] == segs@[k as int]@);
    assert(sv.drop_first() =~= segs@.map_values(|s: String| s@).skip(k + 1));
    match obj.remove(segs[k].as_str()) {
        None => {
            assert(obj@ =~= old(obj)@);
            Err(ObjectPatchError::FieldNotFound { field_name: segs[k].clone() })
        },
        Some(Field::Object(inner)) => {
            let mut inner = inner;
            assert(old(obj)@[sv[0]] == FieldV::Object(inner@));
            let r = apply_at(&mut inner, segs, k + 1, delta);
            obj.insert(segs[k].clone(), Field::Object(inner));
            assert(obj@ =~= old(obj)@.insert(sv[0], FieldV::Object(inner@)));
            r
        },
        Some(other) => {
            let ghost ov = other@;
            obj.insert(segs[k].clone(), other);
            assert(obj@ =~= old(obj)@);
            Err(ObjectPatchError::NotAnObject { field_name: segs[k].clone() })
        },
    }
}

/// Apply a sequence of patches to an object in place, stopping at the
/// first error (changes made before it stay).
pub fn apply_object_patches(obj: &mut Object, patches: Vec<ObjectPatch>) -> (r: Result<(), ObjectPatchError>)
    requires
        !(apply_patches_spec(old(obj)@, patches@) is Panic),
    ensures
        apply_patches_spec(old(obj)@, patches@) == Applied::Done(final(obj)@, err_view(r)),
    decreases patches@, 0nat,
{
    let ghost o0 = obj@;
    let ghost ps = patches@;
    let n = patches.len();
    let mut rest = patches;
    let mut i: usize = 0;
    while rest.len() > 0
        invariant
            o0 == old(obj)@,
            ps == patches@,
            i <= ps.len(),
            n == ps.len(),
            rest@ == ps.skip(i as int),
            apply_patches_spec(o0, ps.take(i as int)) == Applied::Done(obj@, None),
            !(apply_patches_spec(o0, ps) is Panic),
        decreases rest@.len(),
    {
        let p = rest.remove(0);
        proof {
            assert(p == ps[i as int]);
            assert(ps.take(i + 1).drop_last() =~= ps.take(i as int));
            assert(ps.take(i + 1).last() == p);
            assert(decreases_to!(ps => p));
            if apply_one_spec(obj@, p) is Panic {
                lemma_prefix_stop(o0, ps, i + 1);
            }
        }
        let r = apply_one(obj, p);
        i = i + 1;
        if r.is_err() {
            proof {
                lemma_prefix_stop(o0, ps, i as int);
            }
            return r;
        }
        assert(rest@ =~= ps.skip(i as int));
    }
    assert(ps.take(i as int) =~= ps);
    Ok(())
}

/// Field names of `old` that `new` lacks.
pub open spec fn removed_keys(old: ObjV, new: ObjV) -> Set<Seq<char>> {
    old.dom().filter(|k: Seq<char>| !new.contains_key(k))
}

/// Field names of `new` that `old` lacks or holds with another value.
pub open spec fn changed_keys(old: ObjV, new: ObjV) -> Set<Seq<char>> {
    new.dom().filter(|k: Seq<char>| !old.contains_key(k) || old[k] != new[k])
}

/// Whether `p` is one of the patches a shallow diff from `old` to `new`
/// is made of: the removal of a field `new` lacks, the addition of a
/// field `old` lacks, or the overwrite of a field whose value changed.
pub open spec fn is_diff_patch(old: ObjV, new: ObjV, p: ObjectPatch) -> bool {
    match p {
        ObjectPatch::RemoveField { name } => removed_keys(old, new).contains(name@),
        ObjectPatch::AddField { name, field } => !old.contains_key(name@) && new.contains_key(name@)
            && field@ == new[name@],
        ObjectPatch::UpsertField { name, field } => old.contains_key(name@) && new.contains_key(name@)
            && old[name@] != new[name@] && field@ == new[name@],
        _ => false,
    }
}

/// The field name a diff patch is about.
pub open spec fn patch_name(p: ObjectPatch) -> Seq<char> {
    match p {
        ObjectPatch::RemoveField { name } => name@,
        ObjectPatch::AddField { name, .. } => name@,
        ObjectPatch::UpsertField { name, .. } => name@,
        ObjectPatch::ArrayPatch { name, .. } => name@,
        ObjectPatch::SubObjectPatch { path, .. } => path@,
    }
}

/// Whether `old` has the field `k` and `new` lacks it.
pub open spec fn removed_pred(new: ObjV) -> spec_fn(Seq<char>) -> bool {
    |k: Seq<char>| !new.contains_key(k)
}

/// Whether `new` has the field `k` and `old` lacks it or holds it with
/// another value.
pub open spec fn changed_pred(old: ObjV, new: ObjV) -> spec_fn(Seq<char>) -> bool {
    |k: Seq<char>| !old.contains_key(k) || old[k] != new[k]
}

/// The field names of the shallow diff from `old` to `new`, in the
/// order of its patches: the fields `new` lacks, in `old`'s field
/// order, then the fields `new` adds or changes, in `new`'s field order.
pub open spec fn diff_names(old: Object, new: Object) -> Seq<Seq<char>> {
    old.key_seq().filter(removed_pred(new@)) + new.key_seq().filter(changed_pred(old@, new@))
}

/// Whether `ps` is the shallow diff from `old` to `new`: one patch per
/// name of [`diff_names`], in that order, each the removal, addition or
/// overwrite of that field.
pub open spec fn is_diff_of(old: Object, new: Object, ps: Seq<ObjectPatch>) -> bool {
    &&& ps.len() == diff_names(old, new).len()
    &&& forall|i: int| 0 <= i < ps.len() ==> patch_name(#[trigger] ps[i]) == diff_names(old, new)[i]
        && is_diff_patch(old@, new@, ps[i])
}

proof fn lemma_filter_set_len(s: Seq<Seq<char>>, p: spec_fn(Seq<char>) -> bool)
    requires
        s.no_duplicates(),
    ensures
        s.filter(p).len() == s.to_set().filter(p).len(),
        s.to_set().finite(),
    decreases s.len(),
{
    reveal(Seq::filter);
    if s.len() == 0 {
        assert(s.to_set().filter(p) =~= Set::<Seq<char>>::empty());
        assert(s.to_set() =~= Set::<Seq<char>>::empty());
    } else {
        let t = s.drop_last();
        let x = s.last();
        assert(t.no_duplicates()) by {
            assert forall|i: int, j: int| 0 <= i < t.len() && 0 <= j < t.len() && i != j implies t[i] != t[j] by {
                assert(t[i] == s[i] && t[j] == s[j]);
            }
        }
        lemma_filter_set_len(t, p);
        assert(!t.to_set().contains(x)) by {
            if t.contains(x) {
                let i = choose|i: int| 0 <= i < t.len() && t[i] == x;
                assert(s[i] == x && s[s.len() - 1] == x);
            }
        }
        assert(s =~= t.push(x));
        assert(s.to_set() =~= t.to_set().insert(x)) by {
            assert forall|a: Seq<char>| s.to_set().contains(a) <==> t.to_set().insert(x).contains(a) by {
                if s.contains(a) {
                    let i = choose|i: int| 0 <= i < s.len() && s[i] == a;
                    if i < t.len() {
                        assert(t[i] == a);
                    }
                }
                if t.contains(a) {
                    let i = choose|i: int| 0 <= i < t.len() && t[i] == a;
                    assert(s[i] == a);
                }
                if a == x {
                    assert(s[s.len() - 1] == x);
                }
            }
        }
        if p(x) {
            assert(s.to_set().filter(p) =~= t.to_set().filter(p).insert(x));
        } else {
            assert(s.to_set().filter(p) =~= t.to_set().filter(p));
        }
    }
}

/// Shallow diff: a patch sequence that turns `old` into `new` — a
/// removal for every field `new` lacks, then an addition or overwrite
/// for every field of `new` that `old` lacks or holds with another
/// value.
pub fn diff_object(old: &Object, new: &Object) -> (patches: Vec<ObjectPatch>)
    ensures
        apply_patches_spec(old@, patches@) == Applied::Done(new@, None),
        patches@.len() == removed_keys(old@, new@).len() + changed_keys(old@, new@).len(),
        forall|i: int| 0 <= i < patches@.len() ==> is_diff_patch(old@, new@, #[trigger] patches@[i]),
        forall|i: int, j: int| 0 <= i < j < patches@.len() ==> patch_name(#[trigger] patches@[i]) != patch_name(#[trigger] patches@[j]),
        is_diff_of(*old, *new, patches@),
{
    let ghost pred1 = removed_pred(new@);
    let ghost pred2 = changed_pred(old@, new@);
    let mut patches: Vec<ObjectPatch> = Vec::new();
    let n_old = old.positions();
    let mut i: usize = 0;
    proof {
        reveal(Seq::filter);
        assert(old.key_seq().take(0).filter(pred1) =~= Seq::<Seq<char>>::empty());
        assert(old@.remove_keys(Seq::<Seq<char>>::empty().to_set()) =~= old@);
    }
    while i < n_old
        invariant
            n_old == old.key_seq().len(),
            old.key_seq().no_duplicates(),
            old.key_seq().to_set() == old@.dom(),
            i <= n_old,
            apply_patches_spec(old@, patches@) == Applied::Done(
                old@.remove_keys(old.key_seq().take(i as int).filter(pred1).to_set()), None),
            patches@.len() == old.key_seq().take(i as int).filter(pred1).len(),
            forall|j: int| 0 <= j < patches@.len() ==> (#[trigger] patches@[j]) is RemoveField
                && is_diff_patch(old@, new@, patches@[j])
                && old.key_seq().take(i as int).filter(pred1).contains(patch_name(patches@[j])),
            forall|a: int, b: int| 0 <= a < b < patches@.len() ==> patch_name(#[trigger] patches@[a]) != patch_name(#[trigger] patches@[b]),
            pred1 == removed_pred(new@),
            forall|t: int| 0 <= t < patches@.len() ==> patch_name(#[trigger] patches@[t]) == old.key_seq().take(i as int).filter(pred1)[t],
        decreases n_old - i,
    {
        let k = old.key_at(i);
        let ghost ks = old.key_seq();
        proof {
            reveal(Seq::filter);
            assert(ks.take(i + 1).drop_last() =~= ks.take(i as int));
            assert(ks.take(i + 1).last() == ks[i as int]);
        }
        if !new.contains_key(k.as_str()) {
            let ghost before = patches@;
            let ghost m = old@.remove_keys(ks.take(i as int).filter(pred1).to_set());
            proof {
                assert(!ks.take(i as int).contains(ks[i as int])) by {
                    if ks.take(i as int).contains(ks[i as int]) {
                        let j = choose|j: int| 0 <= j < i && ks.take(i as int)[j] == ks[i as int];
                        assert(ks[j] == ks[i as int]);
                    }
                }
                assert(!ks.take(i as int).filter(pred1).contains(ks[i as int])) by {
                    if ks.take(i as int).filter(pred1).contains(ks[i as int]) {
                        ks.take(i as int).lemma_filter_contains_rev(pred1, ks[i as int]);
                    }
                }
                assert(old@.contains_key(ks[i as int])) by {
                    assert(ks.to_set().contains(ks[i as int]));
                }
                assert(m.contains_key(ks[i as int]));
            }
            let name = k.clone();
            assert(name@ == ks[i as int]);
            patches.push(ObjectPatch::RemoveField { name });
            proof {
                reveal(Seq::filter);
                assert(patches@.drop_last() =~= before);
                assert(ks.take(i + 1).filter(pred1) == ks.take(i as int).filter(pred1).push(ks[i as int]));
                lemma_push_to_set_generic(ks.take(i as int).filter(pred1), ks[i as int]);
                assert(patch_name(patches@[before.len() as int]) == ks[i as int]);
                assert(removed_keys(old@, new@).contains(ks[i as int]));
                assert(apply_patches_spec(old@, patches@) == apply_one_spec(m, patches@.last()));
                assert(m.remove(ks[i as int]) =~= old@.remove_keys(ks.take(i + 1).filter(pred1).to_set()));
                assert forall|j: int| 0 <= j < patches@.len() implies (#[trigger] patches@[j]) is RemoveField
                    && is_diff_patch(old@, new@, patches@[j])
                    && ks.take(i + 1).filter(pred1).contains(patch_name(patches@[j])) by {
                    if j < before.len() {
                        assert(patches@[j] == before[j]);
                        let f0 = ks.take(i as int).filter(pred1);
                        let t = choose|t: int| 0 <= t < f0.len() && f0[t] == patch_name(before[j]);
                        assert(ks.take(i + 1).filter(pred1)[t] == patch_name(before[j]));
                    } else {
                        assert(ks.take(i + 1).filter(pred1)[ks.take(i as int).filter(pred1).len() as int] == ks[i as int]);
                        assert(removed_keys(old@, new@).contains(ks[i as int]));
                    }
                }
                assert forall|a: int, b: int| 0 <= a < b < patches@.len() implies patch_name(#[trigger] patches@[a]) != patch_name(#[trigger] patches@[b]) by {
                    if b == before.len() {
                        assert(patches@[a] == before[a]);
                    }
                }
            }
        } else {
            proof {
                reveal(Seq::filter);
                assert(ks.take(i + 1).filter(pred1) == ks.take(i as int).filter(pred1));
            }
        }
        i = i + 1;
    }
    proof {
        assert(old.key_seq().take(n_old as int) =~= old.key_seq());
        lemma_filter_set_len(old.key_seq(), pred1);
        assert(old.key_seq().filter(pred1).to_set() =~= old.key_seq().to_set().filter(pred1)) by {
            let s = old.key_seq();
            assert forall|a: Seq<char>| s.filter(pred1).to_set().contains(a) <==> s.to_set().filter(pred1).contains(a) by {
                if s.filter(pred1).contains(a) {
                    s.lemma_filter_contains_rev(pred1, a);
                }
                if s.contains(a) && pred1(a) {
                    let j = choose|j: int| 0 <= j < s.len() && s[j] == a;
                    s.lemma_filter_contains(pred1, j);
                }
            }
        }
    }
    let ghost phase1 = patches@;
    let ghost base = old@.remove_keys(removed_keys(old@, new@));
    proof {
        assert(removed_keys(old@, new@) == old@.dom().filter(pred1));
        assert(base =~= old@.restrict(new@.dom()));
    }
    let n_new = new.positions();
    let mut j: usize = 0;
    proof {
        reveal(Seq::filter);
        assert(new.key_seq().take(0).filter(pred2) =~= Seq::<Seq<char>>::empty());
        assert(new.key_seq().take(0).to_set() =~= Set::<Seq<char>>::empty());
        assert(new@.restrict(Set::<Seq<char>>::empty()).union_prefer_right(base.remove_keys(Set::<Seq<char>>::empty())) =~= base);
        assert(base =~= old@.remove_keys(old.key_seq().filter(pred1).to_set()));
    }
    while j < n_new
        invariant
            n_new == new.key_seq().len(),
            new.key_seq().no_duplicates(),
            new.key_seq().to_set() == new@.dom(),
            j <= n_new,
            base == old@.restrict(new@.dom()),
            apply_patches_spec(old@, patches@) == Applied::Done(
                new@.restrict(new.key_seq().take(j as int).to_set()).union_prefer_right(base.remove_keys(new.key_seq().take(j as int).to_set()))
                , None),
            patches@.len() == phase1.len() + new.key_seq().take(j as int).filter(pred2).len(),
            forall|a: int| 0 <= a < phase1.len() ==> patches@[a] == phase1[a],
            forall|a: int| 0 <= a < phase1.len() ==> (#[trigger] phase1[a]) is RemoveField && is_diff_patch(old@, new@, phase1[a]),
            forall|a: int| phase1.len() <= a < patches@.len() ==> !((#[trigger] patches@[a]) is RemoveField)
                && is_diff_patch(old@, new@, patches@[a])
                && new.key_seq().take(j as int).contains(patch_name(patches@[a])),
            forall|a: int, b: int| 0 <= a < b < patches@.len() ==> patch_name(#[trigger] patches@[a]) != patch_name(#[trigger] patches@[b]),
            pred2 == changed_pred(old@, new@),
            phase1.len() == old.key_seq().filter(removed_pred(new@)).len(),
            forall|t: int| 0 <= t < phase1.len() ==> patch_name(#[trigger] phase1[t]) == old.key_seq().filter(removed_pred(new@))[t],
            forall|a: int| phase1.len() <= a < patches@.len() ==> patch_name(#[trigger] patches@[a]) == new.key_seq().take(j as int).filter(pred2)[a - phase1.len()],
            phase1.len() == removed_keys(old@, new@).len(),
        decreases n_new - j,
    {
        let k = new.key_at(j);
        let v = new.field_at(j);
        let ghost ks = new.key_seq();
        let ghost key = ks[j as int];
        let ghost cur = new@.restrict(ks.take(j as int).to_set()).union_prefer_right(base.remove_keys(ks.take(j as int).to_set()));
        proof {
            reveal(Seq::filter);
            assert(ks.take(j + 1).drop_last() =~= ks.take(j as int));
            assert(ks.take(j + 1).last() == key);
            assert(ks.take(j + 1).to_set() =~= ks.take(j as int).to_set().insert(key)) by {
                lemma_take_push_to_set(ks, j as int);
            }
            assert(!ks.take(j as int).contains(key)) by {
                if ks.take(j as int).contains(key) {
                    let a = choose|a: int| 0 <= a < j && ks.take(j as int)[a] == key;
                    assert(ks[a] == key);
                }
            }
            assert(new@.contains_key(key)) by {
                assert(ks.to_set().contains(key));
            }
        }
        let ghost before = patches@;
        let differs = match old.get(k.as_str()) {
            Some(ov) => !field_eq(ov, v),
            None => true,
        };
        if differs {
            let f = clone_field(v);
            let name = k.clone();
            assert(name@ == key);
            assert(f@ == new@[key]);
            if old.contains_key(k.as_str()) {
                patches.push(ObjectPatch::UpsertField { name, field: f });
            } else {
                patches.push(ObjectPatch::AddField { name, field: f });
            }
            proof {
                reveal(Seq::filter);
                assert(patches@.drop_last() =~= before);
                assert(apply_patches_spec(old@, patches@) == apply_one_spec(cur, patches@.last()));
                assert(patch_name(patches@[before.len() as int]) == key);
                assert(is_diff_patch(old@, new@, patches@[before.len() as int]));
                assert(ks.take(j + 1).filter(pred2) == ks.take(j as int).filter(pred2).push(key));
                assert(!cur.contains_key(key) <==> !old@.contains_key(key));
                let nxt = new@.restrict(ks.take(j + 1).to_set()).union_prefer_right(base.remove_keys(ks.take(j + 1).to_set()));
                assert(cur.insert(key, new@[key]) =~= nxt);
                assert forall|a: int| phase1.len() <= a < patches@.len() implies !((#[trigger] patches@[a]) is RemoveField)
                    && is_diff_patch(old@, new@, patches@[a])
                    && ks.take(j + 1).contains(patch_name(patches@[a])) by {
                    if a < before.len() {
                        assert(patches@[a] == before[a]);
                        let t = choose|t: int| 0 <= t < j && ks.take(j as int)[t] == patch_name(before[a]);
                        assert(ks.take(j + 1)[t] == patch_name(before[a]));
                    } else {
                        assert(ks.take(j + 1)[j as int] == key);
                    }
                }
                assert forall|a: int, b: int| 0 <= a < b < patches@.len() implies patch_name(#[trigger] patches@[a]) != patch_name(#[trigger] patches@[b]) by {
                    if b == before.len() {
                        if a < phase1.len() {
                            assert(patches@[a] == phase1[a]);
                            assert(removed_keys(old@, new@).contains(patch_name(phase1[a])));
                        } else {
                            assert(patches@[a] == before[a]);
                            let t = choose|t: int| 0 <= t < j && ks.take(j as int)[t] == patch_name(before[a]);
                            assert(ks[t] == patch_name(before[a]));
                        }
                    } else {
                        assert(patches@[a] == before[a] && patches@[b] == before[b]);
                    }
                }
                assert forall|a: int| 0 <= a < phase1.len() implies patches@[a] == phase1[a] by {
                    assert(patches@[a] == before[a]);
                }
            }
        } else {
            proof {
                reveal(Seq::filter);
                assert(ks.take(j + 1).filter(pred2) == ks.take(j as int).filter(pred2));
                let nxt = new@.restrict(ks.take(j + 1).to_set()).union_prefer_right(base.remove_keys(ks.take(j + 1).to_set()));
                assert(cur =~= nxt);
                assert forall|a: int| phase1.len() <= a < patches@.len() implies !((#[trigger] patches@[a]) is RemoveField)
                    && is_diff_patch(old@, new@, patches@[a])
                    && ks.take(j + 1).contains(patch_name(patches@[a])) by {
                    let t = choose|t: int| 0 <= t < j && ks.take(j as int)[t] == patch_name(patches@[a]);
                    assert(ks.take(j + 1)[t] == patch_name(patches@[a]));
                }
            }
        }
        j = j + 1;
    }
    proof {
        let ks = new.key_seq();
        assert(ks.take(n_new as int) =~= ks);
        lemma_filter_set_len(ks, pred2);
        assert(ks.filter(pred2).to_set() =~= ks.to_set().filter(pred2)) by {
            assert forall|a: Seq<char>| ks.filter(pred2).to_set().contains(a) <==> ks.to_set().filter(pred2).contains(a) by {
                if ks.filter(pred2).contains(a) {
                    ks.lemma_filter_contains_rev(pred2, a);
                }
                if ks.contains(a) && pred2(a) {
                    let t = choose|t: int| 0 <= t < ks.len() && ks[t] == a;
                    ks.lemma_filter_contains(pred2, t);
                }
            }
        }
        assert(changed_keys(old@, new@) == new@.dom().filter(pred2));
        assert(new@.restrict(ks.to_set()).union_prefer_right(base.remove_keys(ks.to_set())) =~= new@);
        assert forall|i: int| 0 <= i < patches@.len() implies is_diff_patch(old@, new@, #[trigger] patches@[i]) by {
            if i < phase1.len() {
                assert(patches@[i] == phase1[i]);
            }
        }
        let d = diff_names(*old, *new);
        let f1 = old.key_seq().filter(removed_pred(new@));
        let f2 = ks.filter(pred2);
        assert(ks.take(j as int).filter(pred2) == f2);
        assert(d == f1 + f2);
        assert forall|i: int| 0 <= i < patches@.len() implies patch_name(#[trigger] patches@[i]) == d[i]
            && is_diff_patch(old@, new@, patches@[i]) by {
            if i < phase1.len() {
                assert(patches@[i] == phase1[i]);
                assert(d[i] == f1[i]);
            } else {
                assert(d[i] == f2[i - f1.len()]);
            }
        }
    }
    patches
}

proof fn lemma_push_to_set_generic<A>(s: Seq<A>, x: A)
    ensures
        s.push(x).to_set() == s.to_set().insert(x),
{
    assert forall|a: A| s.push(x).to_set().contains(a) <==> s.to_set().insert(x).contains(a) by {
        if s.push(x).contains(a) {
            let k = choose|k: int| 0 <= k < s.push(x).len() && s.push(x)[k] == a;
            if k < s.len() {
                assert(s[k] == a);
            }
        }
        if s.contains(a) {
            let k = choose|k: int| 0 <= k < s.len() && s[k] == a;
            assert(s.push(x)[k] == a);
        }
        if a == x {
            assert(s.push(x)[s.len() as int] == x);
        }
    }
    assert(s.push(x).to_set() =~= s.to_set().insert(x));
}

proof fn lemma_take_push_to_set(s: Seq<Seq<char>>, j: int)
    requires
        0 <= j < s.len(),
    ensures
        s.take(j + 1).to_set() == s.take(j).to_set().insert(s[j]),
{
    let t1 = s.take(j + 1);
    let t0 = s.take(j);
    assert(t1 =~= t0.push(s[j]));
    assert forall|a: Seq<char>| t1.to_set().contains(a) <==> t0.to_set().insert(s[j]).contains(a) by {
        if t1.contains(a) {
            let t = choose|t: int| 0 <= t < t1.len() && t1[t] == a;
            if t < j {
                assert(t0[t] == a);
            }
        }
        if t0.contains(a) {
            let t = choose|t: int| 0 <= t < t0.len() && t0[t] == a;
            assert(t1[t] == a);
        }
        if a == s[j] {
            assert(t1[j] == a);
        }
    }
    assert(t1.to_set() =~= t0.to_set().insert(s[j]));
}

} // verus!
