//! Replay of a recorded log: apply a sequence of patches to a graph,
//! each through the `silent_*` operation it stands for.

use vstd::prelude::*;

use crate::common::ids::EntityId;
use crate::common::patch::{ObjectPatch, Patch};
use crate::common::global_path::PointeeV;
use crate::common::pointee_set::pointee_views;
use crate::db::errors::{
    AddEdgeError, AddHyperedgeMembersError, ApplyPatchError, AttachObjectError, CreateHyperedgeError, DeltaError,
    EntityNotFoundError, RemoveHyperedgeMembersError, RetargetError,
};
use crate::db::graph::constructors::missing_endpoints_spec;
use crate::db::graph::modifiers::attach_target_names;
use crate::db::types::{entity_type_name, EntityType};
use crate::db::graph::Graph;
use crate::db::model::{apply_patch_spec, lemma_replay_step, lemma_replay_stops, replay_spec, ApplyErr, GraphV, Step};
use crate::db::object_patch::{apply_object_patches, apply_patches_spec, Applied};

verus! {

broadcast use vstd::std_specs::hash::group_hash_axioms;

/// What the error of a refused patch holds, given the graph it was
/// applied to: the error of the operation the patch stands for, with
/// the id the patch names and, where the error lists pointees, exactly
/// those that caused the refusal.
pub open spec fn patch_error(g: GraphV, p: Patch, e: ApplyPatchError) -> bool {
    match p {
        Patch::AddNode { id, .. } => e matches ApplyPatchError::NodeAlreadyExists(x) && x.id == id,
        Patch::RemoveNode { id } => e matches ApplyPatchError::NodeNotFound(x) && x.id == id,
        Patch::UpsertNode { id, .. } => e matches ApplyPatchError::NodeNotFound(x) && x.id == id,
        Patch::ChangeNode { id, .. } => change_error(id, e),
        Patch::ChangeEdgeData { id, .. } => change_error(id, e),
        Patch::ChangeHyperedgeData { id, .. } => change_error(id, e),
        Patch::AddEdge { id, source, target } => match e {
            ApplyPatchError::AddEdge(AddEdgeError::MissingEndpoints(x)) => pointee_views(x.missing_endpoints@)
                == missing_endpoints_spec(g, source@, target@),
            ApplyPatchError::AddEdge(AddEdgeError::EdgeAlreadyExists(x)) => x.id == id,
            _ => false,
        },
        Patch::RemoveEdge { id } => e matches ApplyPatchError::EdgeNotFound(x) && x.id == id,
        Patch::RetargetEdge { id, new_target } => match e {
            ApplyPatchError::Retarget(RetargetError::EdgeNotFound(x)) => x.id == id,
            ApplyPatchError::Retarget(RetargetError::InvalidTarget(x)) => x.edge_id == id && x.new_target@ == new_target@,
            _ => false,
        },
        Patch::UpsertEdgeData { id, .. } => upsert_error(id, e),
        Patch::UpsertHyperedgeData { id, .. } => upsert_error(id, e),
        Patch::RemoveEdgeData { id } => e matches ApplyPatchError::NoAttachedObject(x) && x.id == id,
        Patch::RemoveHyperedgeData { id } => e matches ApplyPatchError::NoAttachedObject(x) && x.id == id,
        Patch::CreateHyperedge { id, members } => match e {
            ApplyPatchError::CreateHyperedge(CreateHyperedgeError::EmptyHyperedge) => true,
            ApplyPatchError::CreateHyperedge(CreateHyperedgeError::HyperedgeAlreadyExists(x)) => x.id == id,
            ApplyPatchError::CreateHyperedge(CreateHyperedgeError::PointeesNotFound(x)) => x.pointees@
                == members@.filter(|q: PointeeV| !g.pointee_exists(q)),
            _ => false,
        },
        Patch::RemoveHyperedge { id } => e matches ApplyPatchError::HyperedgeNotFound(x) && x.id == id,
        Patch::AddHyperedgeMembers { id, members } => match e {
            ApplyPatchError::AddHyperedgeMembers(AddHyperedgeMembersError::HyperedgeNotFound(x)) => x.id == id,
            ApplyPatchError::AddHyperedgeMembers(AddHyperedgeMembersError::PointeesNotFound(x)) => x.pointees@
                == members@.filter(|q: PointeeV| !g.pointee_exists(q)),
            ApplyPatchError::AddHyperedgeMembers(AddHyperedgeMembersError::MembersAlreadyExist(x)) => pointee_views(x.members@).no_duplicates()
                && pointee_views(x.members@).to_set() == members@.filter(|q: PointeeV| g.hyperedges[id].contains(q)),
            _ => false,
        },
        Patch::RemoveHyperedgeMembers { id, members } => match e {
            ApplyPatchError::RemoveHyperedgeMembers(RemoveHyperedgeMembersError::HyperedgeNotFound(x)) => x.id == id,
            ApplyPatchError::RemoveHyperedgeMembers(RemoveHyperedgeMembersError::MembersNotInHyperedge(x)) => pointee_views(x.members@).no_duplicates()
                && pointee_views(x.members@).to_set() == members@.filter(|q: PointeeV| !g.hyperedges[id].contains(q)),
            _ => false,
        },
    }
}

/// The error of changing the object of `id`: the id where it carries
/// none, else the object patch's own error.
pub open spec fn change_error(id: u128, e: ApplyPatchError) -> bool {
    match e {
        ApplyPatchError::Change(DeltaError::NotFound(x)) => x.id == id,
        ApplyPatchError::Change(DeltaError::Delta(_)) => true,
        _ => false,
    }
}

/// The error of setting the object attached to `id`.
pub open spec fn upsert_error(id: u128, e: ApplyPatchError) -> bool {
    match e {
        ApplyPatchError::Attach(AttachObjectError::AttachTargetNotFound(x)) => x.id == id,
        ApplyPatchError::Attach(AttachObjectError::IncorrectType(x)) => x.entity_id == id
            && x.expected_type@.map_values(|n: String| n@) == attach_target_names()
            && x.actual_type@ == entity_type_name(EntityType::Node),
        _ => false,
    }
}

impl Graph {
    /// Apply object patches to the object carried by `id`, then cascade
    /// the paths through it that no longer resolve (also where the
    /// patches stop at an error, whose changes before it stay). An
    /// empty sequence changes nothing.
    pub fn obj_apply_patch(&mut self, id: EntityId, patch: Vec<ObjectPatch>) -> (r: Result<(), DeltaError>)
        requires
            old(self)@.wf(),
            !(old(self)@.change_object(id, patch@) is Panic),
        ensures
            final(self)@.wf(),
            final(self).log() == old(self).log(),
            final(self).is_logged() == old(self).is_logged(),
            match r {
                Ok(()) => old(self)@.change_object(id, patch@) == Step::Done(final(self)@),
                Err(DeltaError::NotFound(e)) => old(self)@.change_object(id, patch@) == Step::Fail(final(self)@, ApplyErr::ChangeNotFound)
                    && e.id == id,
                Err(DeltaError::Delta(e)) => old(self)@.change_object(id, patch@) == Step::Fail(final(self)@, ApplyErr::ChangeDelta(e@)),
            },
    {
        if !self.entities.contains_key(&id) {
            return Err(DeltaError::NotFound(EntityNotFoundError { id }));
        }
        let ghost g = self@;
        let mut obj = self.entities.remove(&id).unwrap();
        let applied = apply_object_patches(&mut obj, patch);
        let ghost o = obj@;
        self.entities.insert(id, obj);
        proof {
            assert(self@.entities =~= g.entities.insert(id, o));
            assert(self@ == GraphV { entities: g.entities.insert(id, o), ..g });
        }
        self.cascade();
        match applied {
            Ok(()) => Ok(()),
            Err(e) => Err(DeltaError::Delta(e)),
        }
    }

    /// Apply one patch through the operation it stands for.
    fn apply_one_patch(&mut self, p: Patch) -> (r: Result<(), ApplyPatchError>)
        requires
            old(self)@.wf(),
            !(apply_patch_spec(old(self)@, p) is Panic),
        ensures
            final(self)@.wf(),
            final(self).log() == old(self).log(),
            final(self).is_logged() == old(self).is_logged(),
            match r {
                Ok(()) => apply_patch_spec(old(self)@, p) == Step::Done(final(self)@),
                Err(e) => apply_patch_spec(old(self)@, p) == Step::Fail(final(self)@, e.kind())
                    && patch_error(old(self)@, p, e),
            },
    {
        match p {
            Patch::AddNode { id, obj } => match self.silent_add_node_with_id(id, obj) {
                Ok(()) => Ok(()),
                Err(e) => Err(ApplyPatchError::NodeAlreadyExists(e)),
            },
            Patch::RemoveNode { id } => match self.silent_remove_node(&id) {
                Ok(_) => Ok(()),
                Err(e) => Err(ApplyPatchError::NodeNotFound(e)),
            },
            Patch::ChangeNode { id, delta } => match self.obj_apply_patch(id, delta) {
                Ok(()) => Ok(()),
                Err(e) => Err(ApplyPatchError::Change(e)),
            },
            Patch::UpsertNode { id, obj } => match self.silent_replace_node(&id, obj) {
                Ok(_) => Ok(()),
                Err(e) => Err(ApplyPatchError::NodeNotFound(e)),
            },
            Patch::AddEdge { id, source, target } => match self.silent_add_edge_with_id(id, source, target) {
                Ok(()) => Ok(()),
                Err(e) => Err(ApplyPatchError::AddEdge(e)),
            },
            Patch::RemoveEdge { id } => match self.silent_remove_edge(&id) {
                Ok(_) => Ok(()),
                Err(e) => Err(ApplyPatchError::EdgeNotFound(e)),
            },
            Patch::RetargetEdge { id, new_target } => match self.silent_retarget_edge(&id, new_target) {
                Ok(()) => Ok(()),
                Err(e) => Err(ApplyPatchError::Retarget(e)),
            },
            Patch::UpsertEdgeData { id, obj } => match self.silent_upsert_attached_obj(id, obj) {
                Ok(()) => Ok(()),
                Err(e) => Err(ApplyPatchError::Attach(e)),
            },
            Patch::ChangeEdgeData { id, delta } => match self.obj_apply_patch(id, delta) {
                Ok(()) => Ok(()),
                Err(e) => Err(ApplyPatchError::Change(e)),
            },
            Patch::RemoveEdgeData { id } => match self.silent_remove_attached(id) {
                Ok(()) => Ok(()),
                Err(e) => Err(ApplyPatchError::NoAttachedObject(e)),
            },
            Patch::CreateHyperedge { id, members } => match self.silent_create_hyperedge_with_id(&id, members) {
                Ok(()) => Ok(()),
                Err(e) => Err(ApplyPatchError::CreateHyperedge(e)),
            },
            Patch::RemoveHyperedge { id } => match self.silent_remove_hyperedge(&id) {
                Ok(_) => Ok(()),
                Err(e) => Err(ApplyPatchError::HyperedgeNotFound(e)),
            },
            Patch::AddHyperedgeMembers { id, members } => match self.silent_add_hyperedge_members(id, members) {
                Ok(()) => Ok(()),
                Err(e) => Err(ApplyPatchError::AddHyperedgeMembers(e)),
            },
            Patch::RemoveHyperedgeMembers { id, members } => match self.silent_remove_hyperedge_members(id, members) {
                Ok(()) => Ok(()),
                Err(e) => Err(ApplyPatchError::RemoveHyperedgeMembers(e)),
            },
            Patch::UpsertHyperedgeData { id, obj } => match self.silent_upsert_attached_obj(id, obj) {
                Ok(()) => Ok(()),
                Err(e) => Err(ApplyPatchError::Attach(e)),
            },
            Patch::ChangeHyperedgeData { id, delta } => match self.obj_apply_patch(id, delta) {
                Ok(()) => Ok(()),
                Err(e) => Err(ApplyPatchError::Change(e)),
            },
            Patch::RemoveHyperedgeData { id } => match self.silent_remove_attached(id) {
                Ok(()) => Ok(()),
                Err(e) => Err(ApplyPatchError::NoAttachedObject(e)),
            },
        }
    }

    /// Apply a sequence of patches in order, each through the operation
    /// it stands for, without recording them; stop at the first that is
    /// refused (the changes before it stay) and return its error.
    ///
    /// The graph's log is unchanged, and it stays a complete account of
    /// the graph only where nothing changed.
    pub fn apply_patch(&mut self, delta: Vec<Patch>) -> (r: Result<(), ApplyPatchError>)
        requires
            old(self).inv(),
            !(replay_spec(old(self)@, delta@) is Panic),
        ensures
            final(self).inv(),
            final(self).log() == old(self).log(),
            final(self).is_logged() == (old(self).is_logged() && final(self)@ == old(self)@),
            match r {
                Ok(()) => replay_spec(old(self)@, delta@) == Step::Done(final(self)@),
                Err(e) => replay_spec(old(self)@, delta@) == Step::Fail(final(self)@, e.kind())
                    && exists|i: int| 0 <= i < delta@.len()
                        && (#[trigger] replay_spec(old(self)@, delta@.take(i)) matches Step::Done(gi)
                        && apply_patch_spec(gi, delta@[i]) is Fail && patch_error(gi, delta@[i], e)),
            },
    {
        let ghost g0 = self@;
        let ghost ps = delta@;
        let n = delta.len();
        let mut rest = delta;
        let mut i: usize = 0;
        while rest.len() > 0
            invariant
                ps == delta@,
                n == ps.len(),
                i <= ps.len(),
                rest@ == ps.skip(i as int),
                replay_spec(g0, ps.take(i as int)) == Step::Done(self@),
                !(replay_spec(g0, ps) is Panic),
                self@.wf(),
                self.log() == old(self).log(),
                self.is_logged() == old(self).is_logged(),
                old(self).inv(),
                g0 == old(self)@,
            decreases rest@.len(),
        {
            let p = rest.remove(0);
            proof {
                assert(p == ps[i as int]);
                lemma_replay_step(g0, ps, i as int);
                if apply_patch_spec(self@, p) is Panic {
                    lemma_replay_stops(g0, ps, i + 1);
                }
            }
            let ghost before = self@;
            let ghost at = i as int;
            let applied = self.apply_one_patch(p);
            i = i + 1;
            if applied.is_err() {
                proof {
                    lemma_replay_stops(g0, ps, i as int);
                    assert(replay_spec(g0, ps.take(at)) == Step::Done(before));
                    assert(ps[at] == p);
                }
                let ghost same = self.logged@ && self@ == g0;
                self.logged = Ghost(same);
                return applied;
            }
            assert(rest@ =~= ps.skip(i as int));
        }
        assert(ps.take(i as int) =~= ps);
        let ghost same = self.logged@ && self@ == g0;
        self.logged = Ghost(same);
        Ok(())
    }
}

} // verus!
