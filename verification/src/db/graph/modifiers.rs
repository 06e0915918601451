//! Changes in place: `attach_obj`, `replace_node`,
//! `replace_attached_obj`, `retarget_edge`, `add_hyperedge_members`,
//! `remove_hyperedge_members`, and their `silent_*` forms.

use vstd::prelude::*;

use crate::common::global_path::{Pointee, PointeeV};
use crate::common::ids::{AttachTargetId, EdgeId, HyperedgeId, NodeId};
use crate::common::object::{Field, FieldV, Object};
use crate::common::patch::{Patch, RetargetEdge};
use crate::common::pointee_set::{pointee_views, PointeeSet};
use crate::db::errors::{
    AddHyperedgeMembersError, AttachObjectError, AttachTargetNotFoundError, EdgeNotFoundError,
    HyperedgeNotFoundError, IncorrectTypeError, InvalidRetargetError, MembersAlreadyExistError,
    MembersNotInHyperedgeError, NoAttachedObjectError, NodeNotFoundError, PointeesNotFoundError,
    RemoveHyperedgeMembersError, RetargetError,
};
use crate::db::graph::queries::AttachKind;
use crate::db::graph::Graph;
use crate::db::model::{lemma_clean_noop, lemma_wf_grow, ApplyErr, GraphV, Step};
use crate::db::object_patch::{apply_patches_spec, changed_keys, diff_object, is_diff_of, removed_keys, Applied, ObjV};
use crate::db::types::{entity_type_name, EntityType};

verus! {

broadcast use {vstd::std_specs::hash::group_hash_axioms, vstd::seq_lib::group_seq_properties};

/// The number of patches in the shallow diff from `old` to `new`.
pub open spec fn diff_len(old: ObjV, new: ObjV) -> nat {
    removed_keys(old, new).len() + changed_keys(old, new).len()
}

/// The names of the types an object can be attached to.
pub open spec fn attach_target_names() -> Seq<Seq<char>> {
    seq![entity_type_name(EntityType::Edge), entity_type_name(EntityType::Hyperedge), entity_type_name(EntityType::MetaEdge)]
}

/// The type error of attaching an object to `id`, an entity of type `ty`.
fn attach_type_error(id: AttachTargetId, ty: EntityType) -> (e: IncorrectTypeError)
    ensures
        e.entity_id == id,
        e.expected_type@.map_values(|s: String| s@) == attach_target_names(),
        e.actual_type@ == entity_type_name(ty),
{
    let mut expected: Vec<String> = Vec::new();
    expected.push(EntityType::Edge.to_string());
    expected.push(EntityType::Hyperedge.to_string());
    expected.push(EntityType::MetaEdge.to_string());
    assert(expected@.map_values(|s: String| s@) =~= attach_target_names());
    IncorrectTypeError { entity_id: id, expected_type: expected, actual_type: ty.to_string() }
}

/// The members of `m` that are (`inside`) or are not members of `s`,
/// in the order of `m`.
fn members_in(m: &PointeeSet, s: &PointeeSet, inside: bool) -> (r: Vec<Pointee>)
    ensures
        pointee_views(r@).no_duplicates(),
        pointee_views(r@).to_set() == m@.filter(|p: PointeeV| s@.contains(p) == inside),
{
    let n = m.len();
    let mut out: Vec<Pointee> = Vec::new();
    let mut i: usize = 0;
    while i < n
        invariant
            n == m.seq().len(),
            m.seq().no_duplicates(),
            m.seq().to_set() == m@,
            i <= n,
            pointee_views(out@).no_duplicates(),
            forall|x: PointeeV| #[trigger] pointee_views(out@).contains(x) <==> (exists|k: int| 0 <= k < i && m.seq()[k] == x)
                && s@.contains(x) == inside,
        decreases n - i,
    {
        let p = m.get(i);
        let ghost prev = pointee_views(out@);
        if s.contains(p) == inside {
            proof {
                assert(!prev.contains(p@)) by {
                    if prev.contains(p@) {
                        let k = choose|k: int| 0 <= k < i && m.seq()[k] == p@;
                        assert(m.seq()[k] == m.seq()[i as int]);
                    }
                }
            }
            out.push(p.clone());
            proof {
                assert(pointee_views(out@) =~= prev.push(p@));
            }
        }
        i = i + 1;
        proof {
            assert forall|x: PointeeV| #[trigger] pointee_views(out@).contains(x) <==> (exists|k: int| 0 <= k < i && m.seq()[k] == x)
                && s@.contains(x) == inside by {
                if x == p@ {
                    assert(m.seq()[i - 1] == x);
                }
            }
        }
    }
    proof {
        let v = pointee_views(out@);
        assert forall|x: PointeeV| #[trigger] v.to_set().contains(x) == m@.filter(|p: PointeeV| s@.contains(p) == inside).contains(x) by {
            if m@.contains(x) {
                assert(m.seq().to_set().contains(x));
                let k = choose|k: int| 0 <= k < n && m.seq()[k] == x;
            }
            if exists|k: int| 0 <= k < n && m.seq()[k] == x {
                assert(m.seq().contains(x));
            }
            assert(v.to_set().contains(x) == v.contains(x));
        }
        assert(v.to_set() =~= m@.filter(|p: PointeeV| s@.contains(p) == inside));
    }
    out
}

impl Graph {
    /// Attach `obj` to the edge or hyperedge `target`, which must not
    /// carry an object yet; recording nothing.
    pub(crate) fn silent_attach_obj(&mut self, target: AttachTargetId, obj: Object) -> (r: Result<(), AttachObjectError>)
        requires
            old(self)@.wf(),
        ensures
            final(self)@.wf(),
            final(self).log() == old(self).log(),
            final(self).is_logged() == old(self).is_logged(),
            match r {
                Ok(()) => old(self)@.attach(target, obj@) == Step::Done(final(self)@),
                Err(AttachObjectError::AttachTargetNotFound(e)) => old(self)@.attach(target, obj@) == Step::Fail(final(self)@, ApplyErr::AttachTargetNotFound)
                    && e.id == target,
                Err(AttachObjectError::IncorrectType(e)) => old(self)@.attach(target, obj@) == Step::Fail(final(self)@, ApplyErr::AttachIncorrectType)
                    && e.entity_id == target && e.expected_type@.map_values(|s: String| s@) == attach_target_names()
                    && e.actual_type@ == entity_type_name(old(self)@.get_type(target).unwrap()),
            },
    {
        let ty = match self.get_type(target) {
            Some(t) => t,
            None => {
                return Err(AttachObjectError::AttachTargetNotFound(AttachTargetNotFoundError { id: target }));
            },
        };
        if !ty.is_attach_target() {
            return Err(AttachObjectError::IncorrectType(attach_type_error(target, ty)));
        }
        let ghost g = self@;
        self.entities.insert(target, obj);
        proof {
            assert(self@.entities =~= g.entities.insert(target, obj@));
            assert(self@ == GraphV { entities: g.entities.insert(target, obj@), ..g });
            lemma_wf_grow(g, self@);
        }
        Ok(())
    }

    /// Attach an object to an edge or hyperedge. Strict: the target must
    /// not carry an object yet (see `replace_attached_obj`). Records
    /// `UpsertHyperedgeData` or `UpsertEdgeData`.
    ///
    /// Errors: `AttachTargetNotFound` where `target` is no entity,
    /// `IncorrectType` where it is a node or already carries an object;
    /// the graph and its log are then unchanged.
    pub fn attach_obj(&mut self, target: AttachTargetId, obj: Object) -> (r: Result<(), AttachObjectError>)
        requires
            old(self).inv(),
        ensures
            final(self).inv(),
            match r {
                Ok(()) => {
                    &&& old(self)@.attach(target, obj@) == Step::Done(final(self)@)
                    &&& final(self).log() == old(self).log().push(
                        if old(self)@.hyperedges.contains_key(target) {
                            Patch::UpsertHyperedgeData { id: target, obj }
                        } else {
                            Patch::UpsertEdgeData { id: target, obj }
                        },
                    )
                    &&& final(self).is_logged() == old(self).is_logged()
                },
                Err(e) => {
                    &&& final(self)@ == old(self)@
                    &&& final(self).log() == old(self).log()
                    &&& final(self).is_logged() == old(self).is_logged()
                    &&& match e {
                        AttachObjectError::AttachTargetNotFound(x) => !old(self)@.is_exist(target) && x.id == target,
                        AttachObjectError::IncorrectType(x) => {
                            &&& old(self)@.is_exist(target)
                            &&& !old(self)@.get_type(target).unwrap().is_attach_target_spec()
                            &&& x.entity_id == target
                            &&& x.expected_type@.map_values(|s: String| s@) == attach_target_names()
                            &&& x.actual_type@ == entity_type_name(old(self)@.get_type(target).unwrap())
                        },
                    }
                },
            },
    {
        let ghost before = self@;
        let is_hyper = self.hyperedges.contains_key(&target);
        let attached = self.silent_attach_obj(target, obj.clone());
        match attached {
            Ok(()) => {
                proof {
                    lemma_clean_noop(self@);
                }
                if is_hyper {
                    self.record_patch(Patch::UpsertHyperedgeData { id: target, obj }, Ghost(before));
                } else {
                    self.record_patch(Patch::UpsertEdgeData { id: target, obj }, Ghost(before));
                }
                Ok(())
            },
            Err(e) => Err(e),
        }
    }

    /// Set the object attached to an edge or hyperedge, whether one was
    /// attached or not, then cascade; recording nothing. Replay uses it
    /// for `Upsert*Data` patches.
    pub(crate) fn silent_upsert_attached_obj(&mut self, id: AttachTargetId, obj: Object) -> (r: Result<(), AttachObjectError>)
        requires
            old(self)@.wf(),
        ensures
            final(self)@.wf(),
            final(self).log() == old(self).log(),
            final(self).is_logged() == old(self).is_logged(),
            match r {
                Ok(()) => old(self)@.upsert_attached(id, obj@) == Step::Done(final(self)@),
                Err(AttachObjectError::AttachTargetNotFound(e)) => old(self)@.upsert_attached(id, obj@) == Step::Fail(final(self)@, ApplyErr::AttachTargetNotFound)
                    && e.id == id,
                Err(AttachObjectError::IncorrectType(e)) => old(self)@.upsert_attached(id, obj@) == Step::Fail(final(self)@, ApplyErr::AttachIncorrectType)
                    && e.entity_id == id && e.expected_type@.map_values(|s: String| s@) == attach_target_names()
                    && e.actual_type@ == entity_type_name(EntityType::Node),
            },
    {
        let ty = match self.get_type(id) {
            Some(t) => t,
            None => {
                return Err(AttachObjectError::AttachTargetNotFound(AttachTargetNotFoundError { id }));
            },
        };
        if let EntityType::Node = ty {
            return Err(AttachObjectError::IncorrectType(attach_type_error(id, ty)));
        }
        let ghost g = self@;
        self.entities.insert(id, obj);
        proof {
            assert(self@.entities =~= g.entities.insert(id, obj@));
            assert(self@ == GraphV { entities: g.entities.insert(id, obj@), ..g });
        }
        self.cascade();
        Ok(())
    }

    /// Set (`Some`) or remove (`None`) the object attached to an edge or
    /// hyperedge that carries one, then cascade; recording nothing.
    /// Returns the object it carried.
    pub(crate) fn silent_set_attached_obj(&mut self, id: AttachTargetId, new: Option<Object>) -> (r: Result<Option<Object>, NoAttachedObjectError>)
        requires
            old(self)@.wf(),
        ensures
            final(self)@.wf(),
            final(self).log() == old(self).log(),
            final(self).is_logged() == old(self).is_logged(),
            match r {
                Ok(prev) => {
                    &&& match new {
                        Some(o) => old(self)@.replace_attached(id, o@) == Step::Done(final(self)@),
                        None => old(self)@.remove_attached(id) == Step::Done(final(self)@),
                    }
                    &&& prev matches Some(p) && p@ == old(self)@.entities[id] && p == old(self).stored(id)
                },
                Err(e) => {
                    &&& !old(self)@.has_attached_object(id)
                    &&& final(self)@ == old(self)@
                    &&& e.id == id
                },
            },
    {
        if !self.has_attached_object(&id) {
            return Err(NoAttachedObjectError { id });
        }
        let ghost g = self@;
        let prev = match new {
            Some(obj) => {
                let ghost o = obj@;
                let prev = self.entities.insert(id, obj);
                proof {
                    assert(self@.entities =~= g.entities.insert(id, o));
                    assert(self@ == GraphV { entities: g.entities.insert(id, o), ..g });
                }
                prev
            },
            None => {
                let prev = self.entities.remove(&id);
                proof {
                    assert(self@.entities =~= g.entities.remove(id));
                    assert(self@ == GraphV { entities: g.entities.remove(id), ..g });
                }
                prev
            },
        };
        self.cascade();
        Ok(prev)
    }

    /// Replace the object attached to an edge or hyperedge that carries
    /// one, then cascade; recording nothing. Returns the replaced object.
    pub(crate) fn silent_replace_attached_obj(&mut self, id: &AttachTargetId, obj: Object) -> (r: Result<Object, NoAttachedObjectError>)
        requires
            old(self)@.wf(),
        ensures
            final(self)@.wf(),
            final(self).log() == old(self).log(),
            final(self).is_logged() == old(self).is_logged(),
            match r {
                Ok(prev) => old(self)@.replace_attached(*id, obj@) == Step::Done(final(self)@)
                    && prev@ == old(self)@.entities[*id] && prev == old(self).stored(*id),
                Err(e) => old(self)@.replace_attached(*id, obj@) == Step::Fail(final(self)@, ApplyErr::NoAttachedObject)
                    && e.id == *id,
            },
    {
        let ghost o = obj@;
        match self.silent_set_attached_obj(*id, Some(obj)) {
            Ok(prev) => Ok(prev.unwrap()),
            Err(e) => Err(e),
        }
    }

    /// Replace the object attached to an edge or hyperedge. Strict: the
    /// target must carry an object already (see `attach_obj`), and the
    /// paths through it that no longer resolve cascade. Records the
    /// difference (`Change*Data`) where it has no more patches than the
    /// new object has fields, else the whole object (`Upsert*Data`).
    /// Returns the replaced object as `Field::Object`.
    ///
    /// Error: `NoAttachedObjectError` where `id` carries no attached
    /// object; the graph and its log are then unchanged.
    pub fn replace_attached_obj(&mut self, id: &AttachTargetId, obj: Object) -> (r: Result<Field, NoAttachedObjectError>)
        requires
            old(self).inv(),
        ensures
            final(self).inv(),
            match r {
                Ok(f) => {
                    &&& old(self)@.replace_attached(*id, obj@) == Step::Done(final(self)@)
                    &&& f@ == FieldV::Object(old(self)@.entities[*id])
                    &&& final(self).log().len() == old(self).log().len() + 1
                    &&& final(self).log().drop_last() == old(self).log()
                    &&& if diff_len(old(self)@.entities[*id], obj@) <= obj@.dom().len() {
                        if old(self)@.hyperedges.contains_key(*id) {
                            final(self).log().last() matches Patch::ChangeHyperedgeData { id: i, delta: d } && i == *id
                            && is_diff_of(old(self).stored(*id), obj, d@)
                                && d@.len() == diff_len(old(self)@.entities[*id], obj@)
                                && apply_patches_spec(old(self)@.entities[*id], d@) == Applied::Done(obj@, None)
                        } else {
                            final(self).log().last() matches Patch::ChangeEdgeData { id: i, delta: d } && i == *id
                            && is_diff_of(old(self).stored(*id), obj, d@)
                                && d@.len() == diff_len(old(self)@.entities[*id], obj@)
                                && apply_patches_spec(old(self)@.entities[*id], d@) == Applied::Done(obj@, None)
                        }
                    } else if old(self)@.hyperedges.contains_key(*id) {
                        final(self).log().last() == Patch::UpsertHyperedgeData { id: *id, obj }
                    } else {
                        final(self).log().last() == Patch::UpsertEdgeData { id: *id, obj }
                    }
                    &&& final(self).is_logged() == old(self).is_logged()
                },
                Err(e) => {
                    &&& !old(self)@.has_attached_object(*id)
                    &&& e.id == *id
                    &&& final(self)@ == old(self)@
                    &&& final(self).log() == old(self).log()
                    &&& final(self).is_logged() == old(self).is_logged()
                },
            },
    {
        let ghost before = self@;
        let new_field_count = obj.len();
        let kind = self.attach_kind(id);
        let replaced = self.silent_replace_attached_obj(id, obj.clone());
        let prev = match replaced {
            Ok(p) => p,
            Err(e) => {
                return Err(e);
            },
        };
        let delta = diff_object(&prev, &obj);
        let use_change = delta.len() <= new_field_count;
        proof {
            assert(before.entities.contains_key(*id));
        }
        match kind {
            Some(AttachKind::Hyperedge) => {
                if use_change {
                    self.record_patch(Patch::ChangeHyperedgeData { id: *id, delta }, Ghost(before));
                } else {
                    self.record_patch(Patch::UpsertHyperedgeData { id: *id, obj }, Ghost(before));
                }
            },
            _ => {
                if use_change {
                    self.record_patch(Patch::ChangeEdgeData { id: *id, delta }, Ghost(before));
                } else {
                    self.record_patch(Patch::UpsertEdgeData { id: *id, obj }, Ghost(before));
                }
            },
        }
        Ok(Field::Object(prev))
    }
    /// Add `m` to the members of the hyperedge `id`, recording nothing.
    pub(crate) fn silent_add_hyperedge_members(&mut self, id: HyperedgeId, m: PointeeSet) -> (r: Result<(), AddHyperedgeMembersError>)
        requires
            old(self)@.wf(),
        ensures
            final(self)@.wf(),
            final(self).log() == old(self).log(),
            final(self).is_logged() == old(self).is_logged(),
            match r {
                Ok(()) => old(self)@.add_hyperedge_members(id, m@) == Step::Done(final(self)@),
                Err(AddHyperedgeMembersError::HyperedgeNotFound(e)) => old(self)@.add_hyperedge_members(id, m@) == Step::Fail(final(self)@, ApplyErr::AddMembersHyperedgeNotFound)
                    && e.id == id,
                Err(AddHyperedgeMembersError::PointeesNotFound(e)) => old(self)@.add_hyperedge_members(id, m@) == Step::Fail(final(self)@, ApplyErr::AddMembersPointeesNotFound)
                    && e.pointees@ == m@.filter(|p: PointeeV| !old(self)@.pointee_exists(p))
                    && e.pointees@ != Set::<PointeeV>::empty(),
                Err(AddHyperedgeMembersError::MembersAlreadyExist(e)) => old(self)@.add_hyperedge_members(id, m@) == Step::Fail(final(self)@, ApplyErr::AddMembersAlreadyExist)
                    && pointee_views(e.members@).no_duplicates()
                    && pointee_views(e.members@).to_set() == m@.filter(|p: PointeeV| old(self)@.hyperedges[id].contains(p))
                    && e.members@.len() > 0,
            },
    {
        if !self.hyperedges.contains_key(&id) {
            return Err(AddHyperedgeMembersError::HyperedgeNotFound(HyperedgeNotFoundError { id }));
        }
        let missing = self.collect_missing_pointees(&m);
        if !missing.is_empty() {
            proof {
                let p = missing@.choose();
                if !missing@.contains(p) {
                    assert(missing@ =~= Set::<PointeeV>::empty());
                }
                assert(m@.contains(p) && !self@.pointee_exists(p));
            }
            return Err(AddHyperedgeMembersError::PointeesNotFound(PointeesNotFoundError { pointees: missing }));
        }
        let ghost g = self@;
        proof {
            assert forall|p: PointeeV| !(m@.contains(p) && !g.pointee_exists(p)) by {
                if m@.contains(p) && !g.pointee_exists(p) {
                    assert(missing@.contains(p));
                }
            }
        }
        let duplicates = members_in(&m, self.hyperedges.get(&id).unwrap(), true);
        if duplicates.len() > 0 {
            proof {
                let v = pointee_views(duplicates@);
                assert(v.to_set().contains(v[0]));
            }
            return Err(AddHyperedgeMembersError::MembersAlreadyExist(MembersAlreadyExistError { members: duplicates }));
        }
        proof {
            assert forall|p: PointeeV| !(m@.contains(p) && g.hyperedges[id].contains(p)) by {
                if m@.contains(p) && g.hyperedges[id].contains(p) {
                    let v = pointee_views(duplicates@);
                    assert(v.to_set().contains(p));
                }
            }
        }
        let mut set = self.hyperedges.remove(&id).unwrap();
        let ghost s0 = set@;
        let n = m.len();
        let mut i: usize = 0;
        while i < n
            invariant
                n == m.seq().len(),
                m.seq().to_set() == m@,
                i <= n,
                forall|x: PointeeV| #[trigger] set@.contains(x) <==> s0.contains(x) || exists|k: int| 0 <= k < i && m.seq()[k] == x,
            decreases n - i,
        {
            let p = m.get(i);
            set.insert(p.clone());
            i = i + 1;
            proof {
                assert forall|x: PointeeV| #[trigger] set@.contains(x) <==> s0.contains(x) || exists|k: int| 0 <= k < i && m.seq()[k] == x by {
                    if x == p@ {
                        assert(m.seq()[i - 1] == x);
                    }
                }
            }
        }
        proof {
            assert forall|x: PointeeV| #[trigger] set@.contains(x) == s0.union(m@).contains(x) by {
                if m@.contains(x) {
                    assert(m.seq().to_set().contains(x));
                    let k = choose|k: int| 0 <= k < n && m.seq()[k] == x;
                }
                if exists|k: int| 0 <= k < n && m.seq()[k] == x {
                    assert(m.seq().contains(x));
                }
            }
            assert(set@ =~= s0.union(m@));
            let w = s0.choose();
            if !s0.contains(w) {
                assert(s0 =~= Set::<PointeeV>::empty());
            }
            assert(set@.contains(w));
        }
        self.hyperedges.insert(id, set);
        proof {
            assert(self@.hyperedges =~= g.hyperedges.insert(id, g.hyperedges[id].union(m@)));
            assert(self@ == GraphV { hyperedges: g.hyperedges.insert(id, g.hyperedges[id].union(m@)), ..g });
            lemma_wf_grow(g, self@);
        }
        Ok(())
    }

    /// Add members to a hyperedge; all must resolve and none may be a
    /// member already. Records `AddHyperedgeMembers`.
    ///
    /// Errors: `HyperedgeNotFound`, `PointeesNotFound` (with the members
    /// that do not resolve), `MembersAlreadyExist` (with those that are
    /// members already); the graph and its log are then unchanged.
    pub fn add_hyperedge_members(&mut self, id: HyperedgeId, m: PointeeSet) -> (r: Result<(), AddHyperedgeMembersError>)
        requires
            old(self).inv(),
        ensures
            final(self).inv(),
            match r {
                Ok(()) => {
                    &&& old(self)@.add_hyperedge_members(id, m@) == Step::Done(final(self)@)
                    &&& final(self).log() == old(self).log().push(Patch::AddHyperedgeMembers { id, members: m })
                    &&& final(self).is_logged() == old(self).is_logged()
                },
                Err(e) => {
                    &&& final(self)@ == old(self)@
                    &&& final(self).log() == old(self).log()
                    &&& final(self).is_logged() == old(self).is_logged()
                    &&& match e {
                        AddHyperedgeMembersError::HyperedgeNotFound(x) => !old(self)@.hyperedges.contains_key(id) && x.id == id,
                        AddHyperedgeMembersError::PointeesNotFound(x) => {
                            &&& old(self)@.hyperedges.contains_key(id)
                            &&& x.pointees@ == m@.filter(|p: PointeeV| !old(self)@.pointee_exists(p))
                            &&& x.pointees@ != Set::<PointeeV>::empty()
                        },
                        AddHyperedgeMembersError::MembersAlreadyExist(x) => {
                            &&& old(self)@.hyperedges.contains_key(id)
                            &&& forall|p: PointeeV| m@.contains(p) ==> old(self)@.pointee_exists(p)
                            &&& pointee_views(x.members@).no_duplicates()
                            &&& pointee_views(x.members@).to_set() == m@.filter(|p: PointeeV| old(self)@.hyperedges[id].contains(p))
                            &&& x.members@.len() > 0
                        },
                    }
                },
            },
    {
        let ghost before = self@;
        let added = self.silent_add_hyperedge_members(id, m.clone());
        match added {
            Ok(()) => {
                self.record_patch(Patch::AddHyperedgeMembers { id, members: m }, Ghost(before));
                Ok(())
            },
            Err(e) => Err(e),
        }
    }

    /// Remove `m` from the members of the hyperedge `id`, recording
    /// nothing. A hyperedge left without members is removed with its
    /// attached object, and the removal cascades.
    pub(crate) fn silent_remove_hyperedge_members(&mut self, id: HyperedgeId, m: PointeeSet) -> (r: Result<(), RemoveHyperedgeMembersError>)
        requires
            old(self)@.wf(),
        ensures
            final(self)@.wf(),
            final(self).log() == old(self).log(),
            final(self).is_logged() == old(self).is_logged(),
            match r {
                Ok(()) => old(self)@.remove_hyperedge_members(id, m@) == Step::Done(final(self)@),
                Err(RemoveHyperedgeMembersError::HyperedgeNotFound(e)) => old(self)@.remove_hyperedge_members(id, m@) == Step::Fail(final(self)@, ApplyErr::RemoveMembersHyperedgeNotFound)
                    && e.id == id,
                Err(RemoveHyperedgeMembersError::MembersNotInHyperedge(e)) => old(self)@.remove_hyperedge_members(id, m@) == Step::Fail(final(self)@, ApplyErr::RemoveMembersNotInHyperedge)
                    && pointee_views(e.members@).no_duplicates()
                    && pointee_views(e.members@).to_set() == m@.filter(|p: PointeeV| !old(self)@.hyperedges[id].contains(p))
                    && e.members@.len() > 0,
            },
    {
        if !self.hyperedges.contains_key(&id) {
            return Err(RemoveHyperedgeMembersError::HyperedgeNotFound(HyperedgeNotFoundError { id }));
        }
        let ghost g = self@;
        let not_present = members_in(&m, self.hyperedges.get(&id).unwrap(), false);
        if not_present.len() > 0 {
            proof {
                let v = pointee_views(not_present@);
                assert(v.to_set().contains(v[0]));
            }
            return Err(RemoveHyperedgeMembersError::MembersNotInHyperedge(MembersNotInHyperedgeError { members: not_present }));
        }
        proof {
            assert forall|p: PointeeV| m@.contains(p) implies g.hyperedges[id].contains(p) by {
                let v = pointee_views(not_present@);
                assert(!v.to_set().contains(p));
            }
        }
        let mut set = self.hyperedges.remove(&id).unwrap();
        let ghost s0 = set@;
        let n = m.len();
        let mut i: usize = 0;
        while i < n
            invariant
                n == m.seq().len(),
                m.seq().to_set() == m@,
                i <= n,
                forall|x: PointeeV| #[trigger] set@.contains(x) <==> s0.contains(x) && !exists|k: int| 0 <= k < i && m.seq()[k] == x,
            decreases n - i,
        {
            let p = m.get(i);
            set.remove(p);
            i = i + 1;
            proof {
                assert forall|x: PointeeV| #[trigger] set@.contains(x) <==> s0.contains(x) && !exists|k: int| 0 <= k < i && m.seq()[k] == x by {
                    if x == p@ {
                        assert(m.seq()[i - 1] == x);
                    }
                }
            }
        }
        proof {
            assert forall|x: PointeeV| #[trigger] set@.contains(x) == s0.difference(m@).contains(x) by {
                if m@.contains(x) {
                    assert(m.seq().to_set().contains(x));
                    let k = choose|k: int| 0 <= k < n && m.seq()[k] == x;
                }
                if exists|k: int| 0 <= k < n && m.seq()[k] == x {
                    assert(m.seq().contains(x));
                }
            }
            assert(set@ =~= s0.difference(m@));
        }
        let ghost rest = set@;
        if set.is_empty() {
            self.entities.remove(&id);
            proof {
                assert(self@.entities =~= g.entities.remove(id));
                assert(self@.hyperedges =~= g.hyperedges.remove(id));
                assert(self@ == GraphV { entities: g.entities.remove(id), hyperedges: g.hyperedges.remove(id), ..g });
            }
            self.cascade();
        } else {
            self.hyperedges.insert(id, set);
            proof {
                assert(self@.hyperedges =~= g.hyperedges.insert(id, rest));
                assert(self@ == GraphV { hyperedges: g.hyperedges.insert(id, rest), ..g });
                lemma_wf_grow(g, self@);
            }
        }
        Ok(())
    }

    /// Remove members from a hyperedge; all must be members. A
    /// hyperedge left without members is removed, with its attached
    /// object, and the removal cascades. Records
    /// `RemoveHyperedgeMembers`.
    ///
    /// Errors: `HyperedgeNotFound`, `MembersNotInHyperedge` (with those
    /// that are not members); the graph and its log are then unchanged.
    pub fn remove_hyperedge_members(&mut self, id: HyperedgeId, m: PointeeSet) -> (r: Result<(), RemoveHyperedgeMembersError>)
        requires
            old(self).inv(),
        ensures
            final(self).inv(),
            match r {
                Ok(()) => {
                    &&& old(self)@.remove_hyperedge_members(id, m@) == Step::Done(final(self)@)
                    &&& final(self).log() == old(self).log().push(Patch::RemoveHyperedgeMembers { id, members: m })
                    &&& final(self).is_logged() == old(self).is_logged()
                },
                Err(e) => {
                    &&& final(self)@ == old(self)@
                    &&& final(self).log() == old(self).log()
                    &&& final(self).is_logged() == old(self).is_logged()
                    &&& match e {
                        RemoveHyperedgeMembersError::HyperedgeNotFound(x) => !old(self)@.hyperedges.contains_key(id) && x.id == id,
                        RemoveHyperedgeMembersError::MembersNotInHyperedge(x) => {
                            &&& old(self)@.hyperedges.contains_key(id)
                            &&& pointee_views(x.members@).no_duplicates()
                            &&& pointee_views(x.members@).to_set() == m@.filter(|p: PointeeV| !old(self)@.hyperedges[id].contains(p))
                            &&& x.members@.len() > 0
                        },
                    }
                },
            },
    {
        let ghost before = self@;
        let removed = self.silent_remove_hyperedge_members(id, m.clone());
        match removed {
            Ok(()) => {
                self.record_patch(Patch::RemoveHyperedgeMembers { id, members: m }, Ghost(before));
                Ok(())
            },
            Err(e) => Err(e),
        }
    }
    /// Replace the object of the node `id`, then cascade the paths
    /// through it that no longer resolve; recording nothing. Returns the
    /// replaced object.
    pub(crate) fn silent_replace_node(&mut self, id: &NodeId, obj: Object) -> (r: Result<Object, NodeNotFoundError>)
        requires
            old(self)@.wf(),
        ensures
            final(self)@.wf(),
            final(self).log() == old(self).log(),
            final(self).is_logged() == old(self).is_logged(),
            match r {
                Ok(prev) => old(self)@.replace_node(*id, obj@) == Step::Done(final(self)@)
                    && prev@ == old(self)@.entities[*id] && prev == old(self).stored(*id),
                Err(e) => old(self)@.replace_node(*id, obj@) == Step::Fail(final(self)@, ApplyErr::NodeNotFound)
                    && e.id == *id,
            },
    {
        if !self.is_node(id) {
            return Err(NodeNotFoundError { id: *id });
        }
        let ghost g = self@;
        let ghost o = obj@;
        let prev = self.entities.insert(*id, obj).unwrap();
        proof {
            assert(self@.entities =~= g.entities.insert(*id, o));
            assert(self@ == GraphV { entities: g.entities.insert(*id, o), ..g });
        }
        self.cascade();
        Ok(prev)
    }

    /// Replace the object of a node; the paths through it that no
    /// longer resolve cascade. Records the difference (`ChangeNode`)
    /// where it has no more patches than the new object has fields,
    /// else the whole object (`UpsertNode`). Returns the replaced object
    /// as `Field::Object`.
    ///
    /// Error: `NodeNotFoundError` where `id` is not a bare node; the
    /// graph and its log are then unchanged.
    pub fn replace_node(&mut self, id: &NodeId, obj: Object) -> (r: Result<Field, NodeNotFoundError>)
        requires
            old(self).inv(),
        ensures
            final(self).inv(),
            match r {
                Ok(f) => {
                    &&& old(self)@.replace_node(*id, obj@) == Step::Done(final(self)@)
                    &&& f@ == FieldV::Object(old(self)@.entities[*id])
                    &&& final(self).log().len() == old(self).log().len() + 1
                    &&& final(self).log().drop_last() == old(self).log()
                    &&& if diff_len(old(self)@.entities[*id], obj@) <= obj@.dom().len() {
                        final(self).log().last() matches Patch::ChangeNode { id: i, delta: d } && i == *id
                            && is_diff_of(old(self).stored(*id), obj, d@)
                            && d@.len() == diff_len(old(self)@.entities[*id], obj@)
                            && apply_patches_spec(old(self)@.entities[*id], d@) == Applied::Done(obj@, None)
                    } else {
                        final(self).log().last() == Patch::UpsertNode { id: *id, obj }
                    }
                    &&& final(self).is_logged() == old(self).is_logged()
                },
                Err(e) => {
                    &&& !old(self)@.is_node(*id)
                    &&& e.id == *id
                    &&& final(self)@ == old(self)@
                    &&& final(self).log() == old(self).log()
                    &&& final(self).is_logged() == old(self).is_logged()
                },
            },
    {
        let ghost before = self@;
        let new_field_count = obj.len();
        let replaced = self.silent_replace_node(id, obj.clone());
        let prev = match replaced {
            Ok(p) => p,
            Err(e) => {
                return Err(e);
            },
        };
        let delta = diff_object(&prev, &obj);
        if delta.len() <= new_field_count {
            self.record_patch(Patch::ChangeNode { id: *id, delta }, Ghost(before));
        } else {
            self.record_patch(Patch::UpsertNode { id: *id, obj }, Ghost(before));
        }
        Ok(Field::Object(prev))
    }

    /// Move one endpoint of the edge `id`, recording nothing.
    pub(crate) fn silent_retarget_edge(&mut self, id: &EdgeId, new_target: RetargetEdge) -> (r: Result<(), RetargetError>)
        requires
            old(self)@.wf(),
        ensures
            final(self)@.wf(),
            final(self).log() == old(self).log(),
            final(self).is_logged() == old(self).is_logged(),
            match r {
                Ok(()) => old(self)@.retarget_edge(*id, new_target@.0, new_target@.1) == Step::Done(final(self)@),
                Err(RetargetError::EdgeNotFound(e)) => old(self)@.retarget_edge(*id, new_target@.0, new_target@.1) == Step::Fail(final(self)@, ApplyErr::RetargetEdgeNotFound)
                    && e.id == *id,
                Err(RetargetError::InvalidTarget(e)) => old(self)@.retarget_edge(*id, new_target@.0, new_target@.1) == Step::Fail(final(self)@, ApplyErr::RetargetInvalidTarget)
                    && e.edge_id == *id && e.new_target@ == new_target@,
            },
    {
        let (old_source, old_target) = match self.edges.get(id) {
            Some(pair) => (pair.0.clone(), pair.1.clone()),
            None => {
                return Err(RetargetError::EdgeNotFound(EdgeNotFoundError { id: *id }));
            },
        };
        if !self.is_pointee_exist(new_target.pointee()) {
            return Err(RetargetError::InvalidTarget(InvalidRetargetError { edge_id: *id, new_target }));
        }
        let ghost g = self@;
        let ghost v = new_target@;
        let is_source = match &new_target {
            RetargetEdge::Source(_) => true,
            RetargetEdge::Target(_) => false,
        };
        let new_endpoint = match new_target {
            RetargetEdge::Source(p) => p,
            RetargetEdge::Target(p) => p,
        };
        let unchanged = if is_source { old_source.same_as(&new_endpoint) } else { old_target.same_as(&new_endpoint) };
        if unchanged {
            proof {
                assert(g.edges.insert(*id, if v.0 { (v.1, g.edges[*id].1) } else { (g.edges[*id].0, v.1) }) =~= g.edges);
            }
            return Ok(());
        }
        let new_pair = if is_source { (new_endpoint, old_target) } else { (old_source, new_endpoint) };
        let ghost pv = (new_pair.0@, new_pair.1@);
        self.edges.insert(*id, new_pair);
        proof {
            assert(self@.edges =~= g.edges.insert(*id, pv));
            assert(self@ == GraphV { edges: g.edges.insert(*id, pv), ..g });
            assert(!g.dangling_edge(*id));
            lemma_wf_grow(g, self@);
        }
        Ok(())
    }

    /// Move the source or the target of an edge to a pointee that
    /// resolves. Records `RetargetEdge`.
    ///
    /// Errors: `EdgeNotFound`, `InvalidTarget` where the new endpoint
    /// does not resolve; the graph and its log are then unchanged.
    pub fn retarget_edge(&mut self, id: &EdgeId, new_target: RetargetEdge) -> (r: Result<(), RetargetError>)
        requires
            old(self).inv(),
        ensures
            final(self).inv(),
            match r {
                Ok(()) => {
                    &&& old(self)@.retarget_edge(*id, new_target@.0, new_target@.1) == Step::Done(final(self)@)
                    &&& final(self).log() == old(self).log().push(Patch::RetargetEdge { id: *id, new_target })
                    &&& final(self).is_logged() == old(self).is_logged()
                },
                Err(e) => {
                    &&& final(self)@ == old(self)@
                    &&& final(self).log() == old(self).log()
                    &&& final(self).is_logged() == old(self).is_logged()
                    &&& match e {
                        RetargetError::EdgeNotFound(x) => !old(self)@.edges.contains_key(*id) && x.id == *id,
                        RetargetError::InvalidTarget(x) => {
                            &&& old(self)@.edges.contains_key(*id)
                            &&& !old(self)@.pointee_exists(new_target@.1)
                            &&& x.edge_id == *id
                            &&& x.new_target@ == new_target@
                        },
                    }
                },
            },
    {
        let ghost before = self@;
        let moved = self.silent_retarget_edge(id, new_target.clone());
        match moved {
            Ok(()) => {
                self.record_patch(Patch::RetargetEdge { id: *id, new_target }, Ghost(before));
                Ok(())
            },
            Err(e) => Err(e),
        }
    }
}

} // verus!
