//! Patches: the recorded changes of objects ([`ObjectPatch`]) and of
//! the graph ([`Patch`]).

use vstd::prelude::*;

use crate::common::global_path::Pointee;
use crate::common::ids::{EdgeId, HyperedgeId, NodeId};
use crate::common::local_path::LocalObjPath;
use crate::common::object::{clone_field, Field, Object};
use crate::common::pointee_set::PointeeSet;

verus! {

/// One change to an object.
#[derive(Debug, PartialEq)]
pub enum ObjectPatch {
    /// Add a field that must not exist yet.
    AddField { name: String, field: Field },
    /// Remove a field that must exist.
    RemoveField { name: String },
    /// Set a field, whether it exists or not.
    UpsertField { name: String, field: Field },
    /// Remove the given positions of an array field, then insert the
    /// given fields at the given positions (in order of position).
    ArrayPatch { name: String, removed_indices: Vec<usize>, added_fields: Vec<(usize, Field)> },
    /// Apply `delta` to the object reached by `path`, a
    /// slash-separated path to the nested object.
    SubObjectPatch { path: LocalObjPath, delta: Vec<ObjectPatch> },
}

/// Which endpoint of an edge to move, and where to.
#[derive(Debug, PartialEq)]
pub enum RetargetEdge {
    Source(Pointee),
    Target(Pointee),
}

impl RetargetEdge {
    /// The new endpoint.
    pub open spec fn pointee_spec(&self) -> Pointee {
        match self {
            RetargetEdge::Source(p) => *p,
            RetargetEdge::Target(p) => *p,
        }
    }

    /// The new endpoint.
    pub fn pointee(&self) -> (p: &Pointee)
        ensures
            *p == self.pointee_spec(),
    {
        match self {
            RetargetEdge::Source(p) => p,
            RetargetEdge::Target(p) => p,
        }
    }
}

impl Clone for RetargetEdge {
    fn clone(&self) -> (r: Self)
        ensures
            r@ == self@,
    {
        match self {
            RetargetEdge::Source(p) => RetargetEdge::Source(p.clone()),
            RetargetEdge::Target(p) => RetargetEdge::Target(p.clone()),
        }
    }
}

impl View for RetargetEdge {
    type V = (bool, crate::common::global_path::PointeeV);

    /// Whether the source is moved, and the new endpoint.
    open spec fn view(&self) -> (bool, crate::common::global_path::PointeeV) {
        match self {
            RetargetEdge::Source(p) => (true, p@),
            RetargetEdge::Target(p) => (false, p@),
        }
    }
}

/// One recorded change of the graph.
#[derive(Debug, PartialEq)]
#[allow(inconsistent_fields)]
pub enum Patch {
    // ------------- nodes --------------
    AddNode { id: NodeId, obj: Object },
    RemoveNode { id: NodeId },
    ChangeNode { id: NodeId, delta: Vec<ObjectPatch> },
    UpsertNode { id: NodeId, obj: Object },
    // ------------- edges --------------
    AddEdge { id: EdgeId, source: Pointee, target: Pointee },
    RemoveEdge { id: EdgeId },
    RetargetEdge { id: EdgeId, new_target: RetargetEdge },
    UpsertEdgeData { id: EdgeId, obj: Object },
    ChangeEdgeData { id: EdgeId, delta: Vec<ObjectPatch> },
    RemoveEdgeData { id: EdgeId },
    // ------------- hyperedges ---------
    CreateHyperedge { id: HyperedgeId, members: PointeeSet },
    RemoveHyperedge { id: HyperedgeId },
    AddHyperedgeMembers { id: HyperedgeId, members: PointeeSet },
    RemoveHyperedgeMembers { id: HyperedgeId, members: PointeeSet },
    UpsertHyperedgeData { id: HyperedgeId, obj: Object },
    ChangeHyperedgeData { id: HyperedgeId, delta: Vec<ObjectPatch> },
    RemoveHyperedgeData { id: HyperedgeId },
}

/// Whether two object patches say the same: equal names, paths,
/// positions and field values, and pairwise the same nested patches.
pub open spec fn same_object_patch(a: ObjectPatch, b: ObjectPatch) -> bool
    decreases a, 0nat,
{
    match a {
        ObjectPatch::AddField { name, field } => b matches ObjectPatch::AddField { name: n, field: f }
            && name@ == n@ && field@ == f@,
        ObjectPatch::RemoveField { name } => b matches ObjectPatch::RemoveField { name: n } && name@ == n@,
        ObjectPatch::UpsertField { name, field } => b matches ObjectPatch::UpsertField { name: n, field: f }
            && name@ == n@ && field@ == f@,
        ObjectPatch::ArrayPatch { name, removed_indices, added_fields } => b matches ObjectPatch::ArrayPatch {
            name: n,
            removed_indices: r,
            added_fields: f,
        } && name@ == n@ && removed_indices@ == r@ && same_added_fields(added_fields@, f@),
        ObjectPatch::SubObjectPatch { path, delta } => b matches ObjectPatch::SubObjectPatch { path: q, delta: d }
            && path@ == q@ && same_object_patches(delta@, d@),
    }
}

/// Pairwise the same object patches.
pub open spec fn same_object_patches(a: Seq<ObjectPatch>, b: Seq<ObjectPatch>) -> bool
    decreases a, 0nat,
{
    a.len() == b.len() && (a.len() > 0 ==> same_object_patch(a.last(), b.last())
        && same_object_patches(a.drop_last(), b.drop_last()))
}

/// Pairwise equal positions and field values.
pub open spec fn same_added_fields(a: Seq<(usize, Field)>, b: Seq<(usize, Field)>) -> bool {
    a.len() == b.len() && forall|i: int| 0 <= i < a.len() ==> (#[trigger] a[i]).0 == b[i].0 && a[i].1@ == b[i].1@
}

/// Whether two graph patches say the same: equal ids, objects,
/// pointees and member sets, and the same object patches.
pub open spec fn same_patch(a: Patch, b: Patch) -> bool {
    match a {
        Patch::AddNode { id, obj } => b matches Patch::AddNode { id: i, obj: o } && id == i && obj@ == o@,
        Patch::RemoveNode { id } => b matches Patch::RemoveNode { id: i } && id == i,
        Patch::ChangeNode { id, delta } => b matches Patch::ChangeNode { id: i, delta: d } && id == i
            && same_object_patches(delta@, d@),
        Patch::UpsertNode { id, obj } => b matches Patch::UpsertNode { id: i, obj: o } && id == i && obj@ == o@,
        Patch::AddEdge { id, source, target } => b matches Patch::AddEdge { id: i, source: s, target: t } && id == i
            && source@ == s@ && target@ == t@,
        Patch::RemoveEdge { id } => b matches Patch::RemoveEdge { id: i } && id == i,
        Patch::RetargetEdge { id, new_target } => b matches Patch::RetargetEdge { id: i, new_target: t } && id == i
            && new_target@ == t@,
        Patch::UpsertEdgeData { id, obj } => b matches Patch::UpsertEdgeData { id: i, obj: o } && id == i && obj@ == o@,
        Patch::ChangeEdgeData { id, delta } => b matches Patch::ChangeEdgeData { id: i, delta: d } && id == i
            && same_object_patches(delta@, d@),
        Patch::RemoveEdgeData { id } => b matches Patch::RemoveEdgeData { id: i } && id == i,
        Patch::CreateHyperedge { id, members } => b matches Patch::CreateHyperedge { id: i, members: m } && id == i
            && members@ == m@,
        Patch::RemoveHyperedge { id } => b matches Patch::RemoveHyperedge { id: i } && id == i,
        Patch::AddHyperedgeMembers { id, members } => b matches Patch::AddHyperedgeMembers { id: i, members: m }
            && id == i && members@ == m@,
        Patch::RemoveHyperedgeMembers { id, members } => b matches Patch::RemoveHyperedgeMembers { id: i, members: m }
            && id == i && members@ == m@,
        Patch::UpsertHyperedgeData { id, obj } => b matches Patch::UpsertHyperedgeData { id: i, obj: o } && id == i
            && obj@ == o@,
        Patch::ChangeHyperedgeData { id, delta } => b matches Patch::ChangeHyperedgeData { id: i, delta: d }
            && id == i && same_object_patches(delta@, d@),
        Patch::RemoveHyperedgeData { id } => b matches Patch::RemoveHyperedgeData { id: i } && id == i,
    }
}

/// Pairwise the same, read from the front: the definition reads from
/// the back.
proof fn lemma_same_object_patches(a: Seq<ObjectPatch>, b: Seq<ObjectPatch>)
    requires
        a.len() == b.len(),
        forall|k: int| 0 <= k < a.len() ==> same_object_patch(#[trigger] a[k], b[k]),
    ensures
        same_object_patches(a, b),
    decreases a.len(),
{
    if a.len() > 0 {
        assert(same_object_patch(a[a.len() - 1], b[b.len() - 1]));
        lemma_same_object_patches(a.drop_last(), b.drop_last());
    }
}

/// A copy of an object patch.
pub fn clone_object_patch(p: &ObjectPatch) -> (r: ObjectPatch)
    ensures
        same_object_patch(*p, r),
    decreases p,
{
    match p {
        ObjectPatch::AddField { name, field } => ObjectPatch::AddField { name: name.clone(), field: clone_field(field) },
        ObjectPatch::RemoveField { name } => ObjectPatch::RemoveField { name: name.clone() },
        ObjectPatch::UpsertField { name, field } => ObjectPatch::UpsertField { name: name.clone(), field: clone_field(field) },
        ObjectPatch::ArrayPatch { name, removed_indices, added_fields } => {
            let mut added: Vec<(usize, Field)> = Vec::new();
            let mut i: usize = 0;
            while i < added_fields.len()
                invariant
                    i <= added_fields@.len(),
                    added@.len() == i,
                    forall|k: int| 0 <= k < i ==> (#[trigger] added@[k]).0 == added_fields@[k].0 && added@[k].1@ == added_fields@[k].1@,
                decreases added_fields@.len() - i,
            {
                added.push((added_fields[i].0, clone_field(&added_fields[i].1)));
                i = i + 1;
            }
            let r = ObjectPatch::ArrayPatch { name: name.clone(), removed_indices: removed_indices.clone(), added_fields: added };
            assert(same_added_fields(added_fields@, added@));
            r
        },
        ObjectPatch::SubObjectPatch { path, delta } => {
            let mut out: Vec<ObjectPatch> = Vec::new();
            let mut i: usize = 0;
            while i < delta.len()
                invariant
                    *p == (ObjectPatch::SubObjectPatch { path: *path, delta: *delta }),
                    i <= delta@.len(),
                    out@.len() == i,
                    forall|k: int| 0 <= k < i ==> same_object_patch(delta@[k], #[trigger] out@[k]),
                decreases delta@.len() - i,
            {
                assert(decreases_to!(*p => delta@[i as int])) by {
                    assert(decreases_to!(*p => (*p)->delta));
                    assert(decreases_to!(*delta => delta@[i as int]));
                }
                out.push(clone_object_patch(&delta[i]));
                i = i + 1;
            }
            proof {
                lemma_same_object_patches(delta@, out@);
            }
            ObjectPatch::SubObjectPatch { path: path.clone(), delta: out }
        },
    }
}

/// A copy of a sequence of object patches.
pub fn clone_object_patches(v: &Vec<ObjectPatch>) -> (r: Vec<ObjectPatch>)
    ensures
        same_object_patches(v@, r@),
{
    let mut out: Vec<ObjectPatch> = Vec::new();
    let mut i: usize = 0;
    while i < v.len()
        invariant
            i <= v@.len(),
            out@.len() == i,
            forall|k: int| 0 <= k < i ==> same_object_patch(v@[k], #[trigger] out@[k]),
        decreases v@.len() - i,
    {
        out.push(clone_object_patch(&v[i]));
        i = i + 1;
    }
    proof {
        lemma_same_object_patches(v@, out@);
    }
    out
}

impl Clone for ObjectPatch {
    fn clone(&self) -> (r: Self)
        ensures
            same_object_patch(*self, r),
    {
        clone_object_patch(self)
    }
}

impl Clone for Patch {
    fn clone(&self) -> (r: Self)
        ensures
            same_patch(*self, r),
    {
        match self {
            Patch::AddNode { id, obj } => Patch::AddNode { id: *id, obj: obj.clone() },
            Patch::RemoveNode { id } => Patch::RemoveNode { id: *id },
            Patch::ChangeNode { id, delta } => Patch::ChangeNode { id: *id, delta: clone_object_patches(delta) },
            Patch::UpsertNode { id, obj } => Patch::UpsertNode { id: *id, obj: obj.clone() },
            Patch::AddEdge { id, source, target } => Patch::AddEdge { id: *id, source: source.clone(), target: target.clone() },
            Patch::RemoveEdge { id } => Patch::RemoveEdge { id: *id },
            Patch::RetargetEdge { id, new_target } => Patch::RetargetEdge { id: *id, new_target: new_target.clone() },
            Patch::UpsertEdgeData { id, obj } => Patch::UpsertEdgeData { id: *id, obj: obj.clone() },
            Patch::ChangeEdgeData { id, delta } => Patch::ChangeEdgeData { id: *id, delta: clone_object_patches(delta) },
            Patch::RemoveEdgeData { id } => Patch::RemoveEdgeData { id: *id },
            Patch::CreateHyperedge { id, members } => Patch::CreateHyperedge { id: *id, members: members.clone() },
            Patch::RemoveHyperedge { id } => Patch::RemoveHyperedge { id: *id },
            Patch::AddHyperedgeMembers { id, members } => Patch::AddHyperedgeMembers { id: *id, members: members.clone() },
            Patch::RemoveHyperedgeMembers { id, members } => Patch::RemoveHyperedgeMembers { id: *id, members: members.clone() },
            Patch::UpsertHyperedgeData { id, obj } => Patch::UpsertHyperedgeData { id: *id, obj: obj.clone() },
            Patch::ChangeHyperedgeData { id, delta } => Patch::ChangeHyperedgeData { id: *id, delta: clone_object_patches(delta) },
            Patch::RemoveHyperedgeData { id } => Patch::RemoveHyperedgeData { id: *id },
        }
    }
}

/// A sequence of patches.
pub type Delta = Vec<Patch>;

} // verus!
