//! Operations that add something: `add_node`, `add_edge`,
//! `create_hyperedge`, and the `silent_*` forms that take the id and
//! record nothing (used in replay).

use vstd::prelude::*;

use crate::common::global_path::{Pointee, PointeeV};
use crate::common::ids::{fresh_entity_id, is_v4_uuid, EdgeId, HyperedgeId, NodeId};
use crate::common::object::Object;
use crate::common::patch::Patch;
use crate::common::pointee_set::{pointee_views, PointeeSet};
use crate::db::errors::{
    AddEdgeError, CreateHyperedgeError, EdgeAlreadyExistsError, HyperedgeAlreadyExistsError,
    MissingEndpointsError, NodeAlreadyExistsError, PointeesNotFoundError,
};
use crate::db::graph::Graph;
use crate::db::model::{lemma_wf_grow, ApplyErr, GraphV, Step};

verus! {

broadcast use {vstd::std_specs::hash::group_hash_axioms, vstd::seq_lib::group_seq_properties};

/// The endpoints of a new edge that do not resolve, source first.
pub open spec fn missing_endpoints_spec(g: GraphV, source: PointeeV, target: PointeeV) -> Seq<PointeeV> {
    (if g.pointee_exists(source) { Seq::<PointeeV>::empty() } else { seq![source] })
        + (if g.pointee_exists(target) { Seq::<PointeeV>::empty() } else { seq![target] })
}

impl Graph {
    /// Add a node carrying `obj` under `id`, recording nothing.
    pub(crate) fn silent_add_node_with_id(&mut self, id: NodeId, obj: Object) -> (r: Result<(), NodeAlreadyExistsError>)
        requires
            old(self)@.wf(),
        ensures
            final(self)@.wf(),
            final(self).log() == old(self).log(),
            final(self).is_logged() == old(self).is_logged(),
            match r {
                Ok(()) => old(self)@.add_node(id, obj@) == Step::Done(final(self)@),
                Err(e) => old(self)@.add_node(id, obj@) == Step::Fail(final(self)@, ApplyErr::NodeAlreadyExists)
                    && e.id == id,
            },
    {
        if self.entities.contains_key(&id) {
            return Err(NodeAlreadyExistsError { id });
        }
        let ghost g = self@;
        self.entities.insert(id, obj);
        proof {
            assert(self@.entities =~= g.entities.insert(id, obj@));
            assert(self@ == GraphV { entities: g.entities.insert(id, obj@), ..g });
            lemma_wf_grow(g, self@);
        }
        Ok(())
    }

    /// Add a fresh node carrying `obj` and record `AddNode`. The id is a
    /// new random version-4 UUID; should it already carry an object (a
    /// collision of random ids), the graph is left as it was and the
    /// log stops being a complete account of it.
    pub fn add_node(&mut self, obj: Object) -> (id: NodeId)
        requires
            old(self).inv(),
        ensures
            final(self).inv(),
            is_v4_uuid(id),
            final(self)@ == if old(self)@.entities.contains_key(id) {
                old(self)@
            } else {
                GraphV { entities: old(self)@.entities.insert(id, obj@), ..old(self)@ }
            },
            final(self).log() == old(self).log().push(Patch::AddNode { id, obj }),
            final(self).is_logged() == (old(self).is_logged() && !old(self)@.entities.contains_key(id)),
    {
        let ghost before = self@;
        let id = fresh_entity_id();
        let copy = obj.clone();
        let _ = self.silent_add_node_with_id(id, copy);
        let ghost after = self@;
        self.record_patch(Patch::AddNode { id, obj }, Ghost(before));
        proof {
            assert(after == (if before.entities.contains_key(id) { before } else {
                GraphV { entities: before.entities.insert(id, obj@), ..before }
            }));
        }
        id
    }

    /// Add the edge `id` from `source` to `target`, recording nothing.
    pub(crate) fn silent_add_edge_with_id(&mut self, id: EdgeId, source: Pointee, target: Pointee) -> (r: Result<(), AddEdgeError>)
        requires
            old(self)@.wf(),
        ensures
            final(self)@.wf(),
            final(self).log() == old(self).log(),
            final(self).is_logged() == old(self).is_logged(),
            match r {
                Ok(()) => old(self)@.add_edge(id, source@, target@) == Step::Done(final(self)@),
                Err(AddEdgeError::MissingEndpoints(e)) => old(self)@.add_edge(id, source@, target@) == Step::Fail(final(self)@, ApplyErr::AddEdgeMissingEndpoints)
                    && pointee_views(e.missing_endpoints@) == missing_endpoints_spec(old(self)@, source@, target@),
                Err(AddEdgeError::EdgeAlreadyExists(e)) => old(self)@.add_edge(id, source@, target@) == Step::Fail(final(self)@, ApplyErr::EdgeAlreadyExists)
                    && e.id == id,
            },
    {
        let source_exists = self.is_pointee_exist(&source);
        let target_exists = self.is_pointee_exist(&target);
        if !source_exists || !target_exists {
            let ghost (s, t) = (source@, target@);
            let mut missing: Vec<Pointee> = Vec::new();
            if !source_exists {
                missing.push(source);
            }
            if !target_exists {
                missing.push(target);
            }
            assert(pointee_views(missing@) =~= missing_endpoints_spec(self@, s, t));
            return Err(AddEdgeError::MissingEndpoints(MissingEndpointsError { missing_endpoints: missing }));
        }
        if self.edges.contains_key(&id) {
            return Err(AddEdgeError::EdgeAlreadyExists(EdgeAlreadyExistsError { id }));
        }
        let ghost g = self@;
        let ghost pair = (source@, target@);
        self.edges.insert(id, (source, target));
        proof {
            assert(self@.edges =~= g.edges.insert(id, pair));
            assert(self@ == GraphV { edges: g.edges.insert(id, pair), ..g });
            lemma_wf_grow(g, self@);
        }
        Ok(())
    }

    /// Add an edge from `source` to `target`; both must resolve. The id
    /// is a new random version-4 UUID. Records `AddEdge`.
    ///
    /// Errors: `MissingEndpoints` (with the endpoints that do not
    /// resolve) and, should the fresh id already be an edge,
    /// `EdgeAlreadyExists`; the graph and its log are then unchanged.
    pub fn add_edge(&mut self, source: Pointee, target: Pointee) -> (r: Result<EdgeId, AddEdgeError>)
        requires
            old(self).inv(),
        ensures
            final(self).inv(),
            match r {
                Ok(id) => {
                    &&& is_v4_uuid(id)
                    &&& old(self)@.add_edge(id, source@, target@) == Step::Done(final(self)@)
                    &&& final(self).log() == old(self).log().push(Patch::AddEdge { id, source, target })
                    &&& final(self).is_logged() == old(self).is_logged()
                },
                Err(e) => {
                    &&& final(self)@ == old(self)@
                    &&& final(self).log() == old(self).log()
                    &&& final(self).is_logged() == old(self).is_logged()
                    &&& match e {
                        AddEdgeError::MissingEndpoints(m) => {
                            &&& !(old(self)@.pointee_exists(source@) && old(self)@.pointee_exists(target@))
                            &&& pointee_views(m.missing_endpoints@) == missing_endpoints_spec(old(self)@, source@, target@)
                        },
                        AddEdgeError::EdgeAlreadyExists(x) => {
                            &&& old(self)@.pointee_exists(source@) && old(self)@.pointee_exists(target@)
                            &&& old(self)@.edges.contains_key(x.id)
                            &&& is_v4_uuid(x.id)
                        },
                    }
                },
            },
    {
        let ghost before = self@;
        let id = fresh_entity_id();
        let added = self.silent_add_edge_with_id(id, source.clone(), target.clone());
        match added {
            Ok(()) => {
                self.record_patch(Patch::AddEdge { id, source, target }, Ghost(before));
                Ok(id)
            },
            Err(e) => Err(e),
        }
    }

    /// Create the hyperedge `id` with `members`, recording nothing.
    pub(crate) fn silent_create_hyperedge_with_id(&mut self, id: &HyperedgeId, members: PointeeSet) -> (r: Result<(), CreateHyperedgeError>)
        requires
            old(self)@.wf(),
        ensures
            final(self)@.wf(),
            final(self).log() == old(self).log(),
            final(self).is_logged() == old(self).is_logged(),
            match r {
                Ok(()) => old(self)@.create_hyperedge(*id, members@) == Step::Done(final(self)@),
                Err(CreateHyperedgeError::EmptyHyperedge) => old(self)@.create_hyperedge(*id, members@) == Step::Fail(final(self)@, ApplyErr::HyperedgeEmpty),
                Err(CreateHyperedgeError::HyperedgeAlreadyExists(e)) => old(self)@.create_hyperedge(*id, members@) == Step::Fail(final(self)@, ApplyErr::HyperedgeAlreadyExists)
                    && e.id == *id,
                Err(CreateHyperedgeError::PointeesNotFound(e)) => old(self)@.create_hyperedge(*id, members@) == Step::Fail(final(self)@, ApplyErr::HyperedgePointeesNotFound)
                    && e.pointees@ == members@.filter(|p: PointeeV| !old(self)@.pointee_exists(p))
                    && e.pointees@ != Set::<PointeeV>::empty(),
            },
    {
        if members.is_empty() {
            return Err(CreateHyperedgeError::EmptyHyperedge);
        }
        if self.hyperedges.contains_key(id) {
            return Err(CreateHyperedgeError::HyperedgeAlreadyExists(HyperedgeAlreadyExistsError { id: *id }));
        }
        let missing = self.collect_missing_pointees(&members);
        if !missing.is_empty() {
            proof {
                let p = missing@.choose();
                if !missing@.contains(p) {
                    assert(missing@ =~= Set::<PointeeV>::empty());
                }
                assert(members@.contains(p) && !self@.pointee_exists(p));
            }
            return Err(CreateHyperedgeError::PointeesNotFound(PointeesNotFoundError { pointees: missing }));
        }
        let ghost g = self@;
        let ghost m = members@;
        proof {
            assert forall|p: PointeeV| !(m.contains(p) && !g.pointee_exists(p)) by {
                if m.contains(p) && !g.pointee_exists(p) {
                    assert(missing@.contains(p));
                }
            }
        }
        self.hyperedges.insert(*id, members);
        proof {
            assert(self@.hyperedges =~= g.hyperedges.insert(*id, m));
            assert(self@ == GraphV { hyperedges: g.hyperedges.insert(*id, m), ..g });
            lemma_wf_grow(g, self@);
        }
        Ok(())
    }

    /// Create a hyperedge with the given non-empty set of members, all
    /// of which must resolve. The id is a new random version-4 UUID.
    /// Records `CreateHyperedge`.
    ///
    /// Errors: `EmptyHyperedge`, `PointeesNotFound` (with the members
    /// that do not resolve) and, should the fresh id already be a
    /// hyperedge, `HyperedgeAlreadyExists`; the graph and its log are
    /// then unchanged.
    pub fn create_hyperedge(&mut self, members: PointeeSet) -> (r: Result<HyperedgeId, CreateHyperedgeError>)
        requires
            old(self).inv(),
        ensures
            final(self).inv(),
            match r {
                Ok(id) => {
                    &&& is_v4_uuid(id)
                    &&& old(self)@.create_hyperedge(id, members@) == Step::Done(final(self)@)
                    &&& final(self).log() == old(self).log().push(Patch::CreateHyperedge { id, members })
                    &&& final(self).is_logged() == old(self).is_logged()
                },
                Err(e) => {
                    &&& final(self)@ == old(self)@
                    &&& final(self).log() == old(self).log()
                    &&& final(self).is_logged() == old(self).is_logged()
                    &&& match e {
                        CreateHyperedgeError::EmptyHyperedge => members@ == Set::<PointeeV>::empty(),
                        CreateHyperedgeError::HyperedgeAlreadyExists(x) => {
                            &&& members@ != Set::<PointeeV>::empty()
                            &&& old(self)@.hyperedges.contains_key(x.id)
                            &&& is_v4_uuid(x.id)
                        },
                        CreateHyperedgeError::PointeesNotFound(x) => {
                            &&& members@ != Set::<PointeeV>::empty()
                            &&& x.pointees@ == members@.filter(|p: PointeeV| !old(self)@.pointee_exists(p))
                            &&& x.pointees@ != Set::<PointeeV>::empty()
                        },
                    }
                },
            },
    {
        let ghost before = self@;
        let id = fresh_entity_id();
        let created = self.silent_create_hyperedge_with_id(&id, members.clone());
        match created {
            Ok(()) => {
                self.record_patch(Patch::CreateHyperedge { id, members }, Ghost(before));
                Ok(id)
            },
            Err(e) => Err(e),
        }
    }
}

} // verus!
