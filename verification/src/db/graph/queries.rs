//! Reads of a [`Graph`] that change nothing: listings, getters by id,
//! classification.

use std::collections::HashMap;

use vstd::prelude::*;

use vstd::std_specs::iter::IteratorSpec;

use crate::common::global_path::{Pointee, PointeeV};
use crate::common::ids::{AttachTargetId, EdgeId, EntityId, HyperedgeId, NodeId};
use crate::common::local_path::{local_segments, LocalObjPath};
use crate::common::object::{Field, Object};
use crate::common::pointee_set::PointeeSet;
use crate::db::errors::{EntityNotFoundError, GetEdgeError, IncorrectTypeError};
use crate::db::graph::Graph;
use crate::db::model::walk;
use crate::db::types::{entity_type_name, EdgeView, EntityType, PointeeKind};

verus! {

broadcast use {vstd::std_specs::hash::group_hash_axioms, vstd::seq_lib::group_seq_properties};

/// The keys of a map, each once.
pub fn keys_of<V>(m: &HashMap<EntityId, V>) -> (r: Vec<EntityId>)
    ensures
        r@.no_duplicates(),
        r@.to_set() == m@.dom(),
{
    let ghost ks = vstd::std_specs::hash::spec_keys_iter(m).remaining();
    let mut out: Vec<EntityId> = Vec::new();
    for k in it: m.keys()
        invariant
            it.seq() == ks,
            out@.len() == it.index(),
            forall|i: int| 0 <= i < out@.len() ==> out@[i] == *ks[i],
    {
        out.push(*k);
    }
    proof {
        assert(out@ =~= ks.unref());
    }
    out
}

/// Whether an edge or hyperedge id is an edge or a hyperedge; it picks
/// between the edge and hyperedge families of patches.
#[derive(Clone, Copy, Debug, PartialEq, Eq, Structural)]
pub enum AttachKind {
    Edge,
    Hyperedge,
}

/// The texts of a list of segments.
pub open spec fn segment_views(v: Seq<String>) -> Seq<Seq<char>> {
    v.map_values(|s: String| s@)
}

/// Follow `segs` from position `i` on through nested objects.
fn walk_from<'a>(o: &'a Object, segs: &Vec<String>, i: usize) -> (r: Option<&'a Field>)
    requires
        i <= segs@.len(),
    ensures
        match r {
            Some(f) => walk(o@, segment_views(segs@).skip(i as int)) == Some(f@),
            None => walk(o@, segment_views(segs@).skip(i as int)) is None,
        },
    decreases segs@.len() - i,
{
    let ghost rest = segment_views(segs@).skip(i as int);
    if i == segs.len() {
        assert(rest.len() == 0);
        return None;
    }
    assert(rest[0] == segs@[i as int]@);
    match o.get(segs[i].as_str()) {
        None => None,
        Some(f) => {
            if i + 1 == segs.len() {
                Some(f)
            } else {
                assert(rest.drop_first() =~= segment_views(segs@).skip(i + 1));
                match f {
                    Field::Object(inner) => walk_from(inner, segs, i + 1),
                    _ => None,
                }
            }
        },
    }
}

impl Graph {
    // ------------ listings ------------

    /// Every entity id of the graph once: nodes, edges, hyperedges (an
    /// edge or hyperedge with an attached object counts once).
    pub fn iter_entities(&self) -> (r: Vec<EntityId>)
        ensures
            r@.no_duplicates(),
            r@.to_set() == Set::new(|id: EntityId| self@.is_exist(id)),
    {
        let ents = keys_of(&self.entities);
        let eds = keys_of(&self.edges);
        let hs = keys_of(&self.hyperedges);
        let mut out: Vec<EntityId> = Vec::new();
        let mut i: usize = 0;
        while i < ents.len()
            invariant
                i <= ents@.len(),
                ents@.no_duplicates(),
                out@ == ents@.take(i as int),
            decreases ents@.len() - i,
        {
            out.push(ents[i]);
            i = i + 1;
            assert(out@ =~= ents@.take(i as int));
        }
        assert(ents@.take(ents@.len() as int) =~= ents@);
        let ghost base = out@;
        let mut j: usize = 0;
        while j < eds.len()
            invariant
                j <= eds@.len(),
                eds@.no_duplicates(),
                base == ents@,
                ents@.to_set() == self.entities@.dom(),
                eds@.to_set() == self.edges@.dom(),
                out@.no_duplicates(),
                forall|x: EntityId| out@.contains(x) <==> (self.entities@.contains_key(x) || exists|k: int| 0 <= k < j && eds@[k] == x),
            decreases eds@.len() - j,
        {
            let e = eds[j];
            if !self.entities.contains_key(&e) {
                proof {
                    assert(!out@.contains(e)) by {
                        if out@.contains(e) {
                            let k = choose|k: int| 0 <= k < j && eds@[k] == e;
                            assert(eds@[k] == eds@[j as int]);
                        }
                    }
                }
                out.push(e);
            }
            j = j + 1;
            proof {
                assert forall|x: EntityId| out@.contains(x) <==> (self.entities@.contains_key(x) || exists|k: int| 0 <= k < j && eds@[k] == x) by {
                    if x == e {
                        assert(eds@[j - 1] == e);
                    }
                }
            }
        }
        let mut k: usize = 0;
        while k < hs.len()
            invariant
                k <= hs@.len(),
                hs@.no_duplicates(),
                eds@.to_set() == self.edges@.dom(),
                hs@.to_set() == self.hyperedges@.dom(),
                out@.no_duplicates(),
                forall|x: EntityId| out@.contains(x) <==> (self.entities@.contains_key(x) || self.edges@.contains_key(x) || exists|m: int| 0 <= m < k && hs@[m] == x),
            decreases hs@.len() - k,
        {
            let h = hs[k];
            if !self.entities.contains_key(&h) && !self.edges.contains_key(&h) {
                proof {
                    assert(!out@.contains(h)) by {
                        if out@.contains(h) {
                            let m = choose|m: int| 0 <= m < k && hs@[m] == h;
                            assert(hs@[m] == hs@[k as int]);
                        }
                    }
                }
                out.push(h);
            }
            k = k + 1;
            proof {
                assert forall|x: EntityId| out@.contains(x) <==> (self.entities@.contains_key(x) || self.edges@.contains_key(x) || exists|m: int| 0 <= m < k && hs@[m] == x) by {
                    if x == h {
                        assert(hs@[k - 1] == h);
                    }
                }
            }
        }
        proof {
            assert forall|x: EntityId| out@.to_set().contains(x) == Set::new(|id: EntityId| self@.is_exist(id)).contains(x) by {
                if self.hyperedges@.contains_key(x) {
                    assert(hs@.to_set().contains(x));
                    let m = choose|m: int| 0 <= m < hs@.len() && hs@[m] == x;
                }
                if exists|m: int| 0 <= m < hs@.len() && hs@[m] == x {
                    assert(hs@.contains(x));
                }
            }
            assert(out@.to_set() =~= Set::new(|id: EntityId| self@.is_exist(id)));
        }
        out
    }
    /// Every edge id once.
    pub fn iter_edges(&self) -> (r: Vec<EdgeId>)
        ensures
            r@.no_duplicates(),
            r@.to_set() == self@.edges.dom(),
    {
        keys_of(&self.edges)
    }

    /// Every hyperedge id once.
    pub fn iter_hyperedges(&self) -> (r: Vec<HyperedgeId>)
        ensures
            r@.no_duplicates(),
            r@.to_set() == self@.hyperedges.dom(),
    {
        keys_of(&self.hyperedges)
    }

    /// The ids that carry an object and are neither an edge nor a
    /// hyperedge (those that are carry an attached object).
    fn entity_keys_where(&self, attached: bool) -> (r: Vec<EntityId>)
        ensures
            r@.no_duplicates(),
            r@.to_set() == Set::new(|id: EntityId| if attached { self@.has_attached_object(id) } else { self@.is_node(id) }),
    {
        let ks = keys_of(&self.entities);
        let mut out: Vec<EntityId> = Vec::new();
        let mut i: usize = 0;
        while i < ks.len()
            invariant
                i <= ks@.len(),
                ks@.no_duplicates(),
                ks@.to_set() == self.entities@.dom(),
                out@.no_duplicates(),
                forall|x: EntityId| out@.contains(x) <==> (exists|k: int| 0 <= k < i && ks@[k] == x)
                    && (self.edges@.contains_key(x) || self.hyperedges@.contains_key(x)) == attached,
            decreases ks@.len() - i,
        {
            let id = ks[i];
            let structural = self.edges.contains_key(&id) || self.hyperedges.contains_key(&id);
            if structural == attached {
                proof {
                    assert(!out@.contains(id)) by {
                        if out@.contains(id) {
                            let k = choose|k: int| 0 <= k < i && ks@[k] == id;
                            assert(ks@[k] == ks@[i as int]);
                        }
                    }
                }
                out.push(id);
            }
            i = i + 1;
            proof {
                assert forall|x: EntityId| out@.contains(x) <==> (exists|k: int| 0 <= k < i && ks@[k] == x)
                    && (self.edges@.contains_key(x) || self.hyperedges@.contains_key(x)) == attached by {
                    if x == id {
                        assert(ks@[i - 1] == id);
                    }
                }
            }
        }
        proof {
            assert forall|x: EntityId| out@.to_set().contains(x) == Set::new(|id: EntityId| if attached { self@.has_attached_object(id) } else { self@.is_node(id) }).contains(x) by {
                if self.entities@.contains_key(x) {
                    assert(ks@.to_set().contains(x));
                    let k = choose|k: int| 0 <= k < ks@.len() && ks@[k] == x;
                }
                if exists|k: int| 0 <= k < ks@.len() && ks@[k] == x {
                    assert(ks@.contains(x));
                }
            }
            assert(out@.to_set() =~= Set::new(|id: EntityId| if attached { self@.has_attached_object(id) } else { self@.is_node(id) }));
        }
        out
    }

    /// Every node id once: ids that carry an object and are neither an
    /// edge nor a hyperedge.
    pub fn iter_nodes(&self) -> (r: Vec<NodeId>)
        ensures
            r@.no_duplicates(),
            r@.to_set() == Set::new(|id: EntityId| self@.is_node(id)),
    {
        let r = self.entity_keys_where(false);
        assert(r@.to_set() =~= Set::new(|id: EntityId| self@.is_node(id)));
        r
    }

    /// Every edge or hyperedge id that carries an attached object, once.
    pub fn iter_attached(&self) -> (r: Vec<AttachTargetId>)
        ensures
            r@.no_duplicates(),
            r@.to_set() == Set::new(|id: EntityId| self@.has_attached_object(id)),
    {
        let r = self.entity_keys_where(true);
        assert(r@.to_set() =~= Set::new(|id: EntityId| self@.has_attached_object(id)));
        r
    }

    // ------------ getters ------------

    /// The object carried by `id` (a node, or an edge or hyperedge with
    /// an attached object).
    pub fn obj(&self, id: &EntityId) -> (r: Option<&Object>)
        ensures
            match r {
                Some(o) => self@.entities.contains_key(*id) && o@ == self@.entities[*id],
                None => !self@.entities.contains_key(*id),
            },
    {
        self.entities.get(id)
    }

    /// The edge `id` with its endpoints.
    ///
    /// Errors: `NotFound` where `id` is no entity at all,
    /// `IncorrectType` where it is an entity of another kind.
    pub fn edge(&self, id: &EdgeId) -> (r: Result<EdgeView, GetEdgeError>)
        ensures
            match r {
                Ok(v) => self@.edges.contains_key(*id) && v.id == *id && v.source@ == self@.edges[*id].0
                    && v.target@ == self@.edges[*id].1,
                Err(GetEdgeError::NotFound(e)) => !self@.is_exist(*id) && e.id == *id,
                Err(GetEdgeError::IncorrectType(e)) => self@.is_exist(*id) && !self@.edges.contains_key(*id)
                    && e.entity_id == *id && e.expected_type@.len() == 1 && e.expected_type@[0]@ == "Edge"@
                    && e.actual_type@ == entity_type_name(self@.get_type(*id).unwrap()),
            },
    {
        if let Some(pair) = self.edges.get(id) {
            return Ok(EdgeView { id: *id, source: pair.0.clone(), target: pair.1.clone() });
        }
        match self.get_type(*id) {
            None => Err(GetEdgeError::NotFound(EntityNotFoundError { id: *id })),
            Some(ty) => {
                let mut expected: Vec<String> = Vec::new();
                expected.push("Edge".to_owned());
                Err(GetEdgeError::IncorrectType(IncorrectTypeError {
                    entity_id: *id,
                    expected_type: expected,
                    actual_type: ty.to_string(),
                }))
            },
        }
    }

    /// The members of the hyperedge `id`.
    pub fn hyperedge_members(&self, id: &HyperedgeId) -> (r: Option<&PointeeSet>)
        ensures
            match r {
                Some(s) => self@.hyperedges.contains_key(*id) && s@ == self@.hyperedges[*id],
                None => !self@.hyperedges.contains_key(*id),
            },
    {
        self.hyperedges.get(id)
    }

    // ------------ classification ------------

    /// Classify `entity`; `None` where it is no entity at all.
    ///
    /// An id that carries an object and is also an edge or hyperedge is
    /// an `AttachedObject`; an edge with an endpoint that is an edge or
    /// hyperedge is a `MetaEdge`.
    pub fn get_type(&self, entity: EntityId) -> (r: Option<EntityType>)
        ensures
            r == self@.get_type(entity),
    {
        let in_entities = self.entities.contains_key(&entity);
        let in_edges = self.edges.contains_key(&entity);
        let in_hyper = self.hyperedges.contains_key(&entity);
        if !in_entities && !in_edges && !in_hyper {
            return None;
        }
        if in_entities && (in_edges || in_hyper) {
            return Some(EntityType::AttachedObject);
        }
        if in_edges {
            let pair = self.edges.get(&entity).unwrap();
            if self.is_meta_endpoint(&pair.0) || self.is_meta_endpoint(&pair.1) {
                return Some(EntityType::MetaEdge);
            }
            return Some(EntityType::Edge);
        }
        if in_hyper {
            return Some(EntityType::Hyperedge);
        }
        Some(EntityType::Node)
    }

    /// An endpoint that makes an edge a metaedge: an edge or hyperedge
    /// id (a path never does).
    fn is_meta_endpoint(&self, p: &Pointee) -> (b: bool)
        ensures
            b == self@.is_meta_endpoint(p@),
    {
        match p {
            Pointee::EntityId(id) => self.edges.contains_key(id) || self.hyperedges.contains_key(id),
            Pointee::Path(_) => false,
        }
    }

    /// Classify a pointee; `None` where it does not resolve.
    pub fn classify_pointee(&self, p: &Pointee) -> (r: Option<PointeeKind>)
        ensures
            r == match p@ {
                PointeeV::EntityId(id) => match self@.get_type(id) {
                    Some(t) => Some(t.kind_spec()),
                    None => None,
                },
                PointeeV::Path(_, _) => if self@.pointee_exists(p@) { Some(PointeeKind::Subobject) } else { None },
            },
    {
        match p {
            Pointee::EntityId(id) => match self.get_type(*id) {
                Some(t) => Some(match t {
                    EntityType::Node => PointeeKind::Node,
                    EntityType::Edge => PointeeKind::Edge,
                    EntityType::Hyperedge => PointeeKind::Hyperedge,
                    EntityType::MetaEdge => PointeeKind::MetaEdge,
                    EntityType::AttachedObject => PointeeKind::AttachedObject,
                }),
                None => None,
            },
            Pointee::Path(_) => if self.is_pointee_exist(p) { Some(PointeeKind::Subobject) } else { None },
        }
    }

    /// Whether `id` is registered as any kind of entity.
    pub fn is_exist(&self, id: &EntityId) -> (b: bool)
        ensures
            b == self@.is_exist(*id),
    {
        self.entities.contains_key(id) || self.edges.contains_key(id) || self.hyperedges.contains_key(id)
    }

    /// Walk `local` through `obj`, descending into nested objects
    /// segment by segment: the field reached by the last segment, or
    /// `None` where a segment is missing or passes through a field that
    /// is not an object.
    pub fn walk_path<'a>(obj: &'a Object, local: &LocalObjPath) -> (r: Option<&'a Field>)
        ensures
            match r {
                Some(f) => walk(obj@, local_segments(local@)) == Some(f@),
                None => walk(obj@, local_segments(local@)) is None,
            },
    {
        let segs = local.iter().collect();
        assert(segment_views(segs@).skip(0) =~= local_segments(local@));
        walk_from(obj, &segs, 0)
    }

    /// Whether `p` resolves: an entity id that exists, or a path whose
    /// entity carries an object through which the path walks to a field.
    pub fn is_pointee_exist(&self, p: &Pointee) -> (b: bool)
        ensures
            b == self@.pointee_exists(p@),
    {
        match p {
            Pointee::EntityId(id) => self.is_exist(id),
            Pointee::Path(path) => match self.entities.get(&path.entity()) {
                Some(o) => Graph::walk_path(o, path.local()).is_some(),
                None => false,
            },
        }
    }

    /// Whether `id` is a bare node: it carries an object and is neither
    /// an edge nor a hyperedge.
    pub fn is_node(&self, id: &NodeId) -> (b: bool)
        ensures
            b == self@.is_node(*id),
    {
        self.entities.contains_key(id) && !self.edges.contains_key(id) && !self.hyperedges.contains_key(id)
    }

    /// Whether `id` is an edge or hyperedge with an attached object.
    pub fn has_attached_object(&self, id: &AttachTargetId) -> (b: bool)
        ensures
            b == self@.has_attached_object(*id),
    {
        self.entities.contains_key(id) && (self.edges.contains_key(id) || self.hyperedges.contains_key(id))
    }

    /// Whether `id` is a hyperedge or an edge (a hyperedge first);
    /// `None` where it is neither.
    pub fn attach_kind(&self, id: &AttachTargetId) -> (r: Option<AttachKind>)
        ensures
            r == if self@.hyperedges.contains_key(*id) {
                Some(AttachKind::Hyperedge)
            } else if self@.edges.contains_key(*id) {
                Some(AttachKind::Edge)
            } else {
                None
            },
    {
        if self.hyperedges.contains_key(id) {
            Some(AttachKind::Hyperedge)
        } else if self.edges.contains_key(id) {
            Some(AttachKind::Edge)
        } else {
            None
        }
    }

    /// The pointees of `ps` that do not resolve.
    pub fn collect_missing_pointees(&self, ps: &PointeeSet) -> (r: PointeeSet)
        ensures
            r@ == ps@.filter(|p: PointeeV| !self@.pointee_exists(p)),
    {
        let r = self.select_pointees(ps, false);
        assert(r@ =~= ps@.filter(|p: PointeeV| !self@.pointee_exists(p)));
        r
    }

    /// The pointees of `ps` that resolve (`resolving`) or that do not.
    pub(crate) fn select_pointees(&self, ps: &PointeeSet, resolving: bool) -> (r: PointeeSet)
        ensures
            r@ == ps@.filter(|p: PointeeV| self@.pointee_exists(p) == resolving),
    {
        let n = ps.len();
        let mut out = PointeeSet::new();
        let mut i: usize = 0;
        while i < n
            invariant
                n == ps.seq().len(),
                ps.seq().to_set() == ps@,
                i <= n,
                forall|x: PointeeV| #[trigger] out@.contains(x) <==> (exists|k: int| 0 <= k < i && ps.seq()[k] == x)
                    && self@.pointee_exists(x) == resolving,
            decreases n - i,
        {
            let p = ps.get(i);
            if self.is_pointee_exist(p) == resolving {
                out.insert(p.clone());
            }
            i = i + 1;
            proof {
                assert forall|x: PointeeV| #[trigger] out@.contains(x) <==> (exists|k: int| 0 <= k < i && ps.seq()[k] == x)
                    && self@.pointee_exists(x) == resolving by {
                    if x == p@ {
                        assert(ps.seq()[i - 1] == x);
                    }
                }
            }
        }
        proof {
            assert forall|x: PointeeV| #[trigger] out@.contains(x) == ps@.filter(|p: PointeeV| self@.pointee_exists(p) == resolving).contains(x) by {
                if ps@.contains(x) {
                    assert(ps.seq().to_set().contains(x));
                    let k = choose|k: int| 0 <= k < ps.seq().len() && ps.seq()[k] == x;
                }
                if exists|k: int| 0 <= k < n && ps.seq()[k] == x {
                    assert(ps.seq().contains(x));
                }
            }
            assert(out@ =~= ps@.filter(|p: PointeeV| self@.pointee_exists(p) == resolving));
        }
        out
    }
}

} // verus!