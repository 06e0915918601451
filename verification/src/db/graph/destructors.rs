//! Operations that remove something: `remove_node`, `remove_edge`,
//! `remove_hyperedge`, `remove_attached`. Each cascades: whatever
//! referred to what was removed, directly or through a path, is removed
//! too.

use vstd::prelude::*;

use crate::common::ids::{AttachTargetId, EdgeId, HyperedgeId, NodeId};
use crate::common::object::{Field, FieldV};
use crate::common::patch::Patch;
use crate::common::pointee_set::PointeeSet;
use crate::db::errors::{EdgeNotFoundError, HyperedgeNotFoundError, NoAttachedObjectError, NodeNotFoundError};
use crate::db::graph::queries::AttachKind;
use crate::db::graph::Graph;
use crate::db::model::{ApplyErr, GraphV, Step};
use crate::db::types::EdgeView;

verus! {

broadcast use vstd::std_specs::hash::group_hash_axioms;

impl Graph {
    /// Remove the node `id` and cascade, recording nothing. Returns the
    /// node's object.
    pub(crate) fn silent_remove_node(&mut self, id: &NodeId) -> (r: Result<Field, NodeNotFoundError>)
        requires
            old(self)@.wf(),
        ensures
            final(self)@.wf(),
            final(self).log() == old(self).log(),
            final(self).is_logged() == old(self).is_logged(),
            match r {
                Ok(f) => old(self)@.remove_node(*id) == Step::Done(final(self)@)
                    && f@ == FieldV::Object(old(self)@.entities[*id]),
                Err(e) => old(self)@.remove_node(*id) == Step::Fail(final(self)@, ApplyErr::NodeNotFound)
                    && e.id == *id,
            },
    {
        if !self.is_node(id) {
            return Err(NodeNotFoundError { id: *id });
        }
        let ghost g = self@;
        let obj = self.entities.remove(id).unwrap();
        proof {
            assert(self@.entities =~= g.entities.remove(*id));
            assert(self@ == GraphV { entities: g.entities.remove(*id), ..g });
        }
        self.cascade();
        Ok(Field::Object(obj))
    }

    /// Remove a node and cascade to every edge and hyperedge membership
    /// that referred to it (directly or through a path), transitively.
    /// Records one `RemoveNode` whatever the depth of the cascade.
    /// Returns the node's object as `Field::Object`.
    ///
    /// Error: `NodeNotFoundError` where `id` is not a bare node; the
    /// graph and its log are then unchanged.
    pub fn remove_node(&mut self, id: &NodeId) -> (r: Result<Field, NodeNotFoundError>)
        requires
            old(self).inv(),
        ensures
            final(self).inv(),
            match r {
                Ok(f) => {
                    &&& old(self)@.remove_node(*id) == Step::Done(final(self)@)
                    &&& f@ == FieldV::Object(old(self)@.entities[*id])
                    &&& final(self).log() == old(self).log().push(Patch::RemoveNode { id: *id })
                    &&& final(self).is_logged() == old(self).is_logged()
                },
                Err(e) => {
                    &&& !old(self)@.is_node(*id)
                    &&& e.id == *id
                    &&& final(self)@ == old(self)@
                    &&& final(self).log() == old(self).log()
                    &&& final(self).is_logged() == old(self).is_logged()
                },
            },
    {
        let ghost before = self@;
        let removed = self.silent_remove_node(id);
        match removed {
            Ok(f) => {
                self.record_patch(Patch::RemoveNode { id: *id }, Ghost(before));
                Ok(f)
            },
            Err(e) => Err(e),
        }
    }

    /// Remove the edge `id` and its attached object, and cascade,
    /// recording nothing. Returns the removed edge.
    pub(crate) fn silent_remove_edge(&mut self, id: &EdgeId) -> (r: Result<EdgeView, EdgeNotFoundError>)
        requires
            old(self)@.wf(),
        ensures
            final(self)@.wf(),
            final(self).log() == old(self).log(),
            final(self).is_logged() == old(self).is_logged(),
            match r {
                Ok(v) => old(self)@.remove_edge(*id) == Step::Done(final(self)@)
                    && v.id == *id && v.source@ == old(self)@.edges[*id].0 && v.target@ == old(self)@.edges[*id].1,
                Err(e) => old(self)@.remove_edge(*id) == Step::Fail(final(self)@, ApplyErr::EdgeNotFound)
                    && e.id == *id,
            },
    {
        if !self.edges.contains_key(id) {
            return Err(EdgeNotFoundError { id: *id });
        }
        let ghost g = self@;
        let pair = self.edges.remove(id).unwrap();
        self.entities.remove(id);
        proof {
            assert(self@.entities =~= g.entities.remove(*id));
            assert(self@.edges =~= g.edges.remove(*id));
            assert(self@ == GraphV { entities: g.entities.remove(*id), edges: g.edges.remove(*id), ..g });
        }
        self.cascade();
        let (source, target) = pair;
        Ok(EdgeView { id: *id, source, target })
    }

    /// Remove an edge and its attached object, and cascade to whatever
    /// referred to it. Records `RemoveEdge`. Returns the removed edge.
    ///
    /// Error: `EdgeNotFoundError` where `id` is not an edge; the graph
    /// and its log are then unchanged.
    pub fn remove_edge(&mut self, id: &EdgeId) -> (r: Result<EdgeView, EdgeNotFoundError>)
        requires
            old(self).inv(),
        ensures
            final(self).inv(),
            match r {
                Ok(v) => {
                    &&& old(self)@.remove_edge(*id) == Step::Done(final(self)@)
                    &&& v.id == *id && v.source@ == old(self)@.edges[*id].0 && v.target@ == old(self)@.edges[*id].1
                    &&& final(self).log() == old(self).log().push(Patch::RemoveEdge { id: *id })
                    &&& final(self).is_logged() == old(self).is_logged()
                },
                Err(e) => {
                    &&& !old(self)@.edges.contains_key(*id)
                    &&& e.id == *id
                    &&& final(self)@ == old(self)@
                    &&& final(self).log() == old(self).log()
                    &&& final(self).is_logged() == old(self).is_logged()
                },
            },
    {
        let ghost before = self@;
        let removed = self.silent_remove_edge(id);
        match removed {
            Ok(v) => {
                self.record_patch(Patch::RemoveEdge { id: *id }, Ghost(before));
                Ok(v)
            },
            Err(e) => Err(e),
        }
    }

    /// Remove the hyperedge `id` and its attached object, and cascade,
    /// recording nothing. Returns its members.
    pub(crate) fn silent_remove_hyperedge(&mut self, hid: &HyperedgeId) -> (r: Result<PointeeSet, HyperedgeNotFoundError>)
        requires
            old(self)@.wf(),
        ensures
            final(self)@.wf(),
            final(self).log() == old(self).log(),
            final(self).is_logged() == old(self).is_logged(),
            match r {
                Ok(m) => old(self)@.remove_hyperedge(*hid) == Step::Done(final(self)@)
                    && m@ == old(self)@.hyperedges[*hid],
                Err(e) => old(self)@.remove_hyperedge(*hid) == Step::Fail(final(self)@, ApplyErr::HyperedgeNotFound)
                    && e.id == *hid,
            },
    {
        if !self.hyperedges.contains_key(hid) {
            return Err(HyperedgeNotFoundError { id: *hid });
        }
        let ghost g = self@;
        let members = self.hyperedges.remove(hid).unwrap();
        self.entities.remove(hid);
        proof {
            assert(self@.entities =~= g.entities.remove(*hid));
            assert(self@.hyperedges =~= g.hyperedges.remove(*hid));
            assert(self@ == GraphV { entities: g.entities.remove(*hid), hyperedges: g.hyperedges.remove(*hid), ..g });
        }
        self.cascade();
        Ok(members)
    }

    /// Remove a hyperedge and its attached object, and cascade to
    /// whatever referred to it (edges, hyperedges that lose it as a
    /// member and are left empty). Records one `RemoveHyperedge`.
    /// Returns its members.
    ///
    /// Error: `HyperedgeNotFoundError` where `hid` is not a hyperedge;
    /// the graph and its log are then unchanged.
    pub fn remove_hyperedge(&mut self, hid: &HyperedgeId) -> (r: Result<PointeeSet, HyperedgeNotFoundError>)
        requires
            old(self).inv(),
        ensures
            final(self).inv(),
            match r {
                Ok(m) => {
                    &&& old(self)@.remove_hyperedge(*hid) == Step::Done(final(self)@)
                    &&& m@ == old(self)@.hyperedges[*hid]
                    &&& final(self).log() == old(self).log().push(Patch::RemoveHyperedge { id: *hid })
                    &&& final(self).is_logged() == old(self).is_logged()
                },
                Err(e) => {
                    &&& !old(self)@.hyperedges.contains_key(*hid)
                    &&& e.id == *hid
                    &&& final(self)@ == old(self)@
                    &&& final(self).log() == old(self).log()
                    &&& final(self).is_logged() == old(self).is_logged()
                },
            },
    {
        let ghost before = self@;
        let removed = self.silent_remove_hyperedge(hid);
        match removed {
            Ok(m) => {
                self.record_patch(Patch::RemoveHyperedge { id: *hid }, Ghost(before));
                Ok(m)
            },
            Err(e) => Err(e),
        }
    }

    /// Remove the object attached to an edge or hyperedge, recording
    /// nothing. The edge or hyperedge stays; paths through the object
    /// no longer resolve and cascade.
    pub(crate) fn silent_remove_attached(&mut self, target: AttachTargetId) -> (r: Result<(), NoAttachedObjectError>)
        requires
            old(self)@.wf(),
        ensures
            final(self)@.wf(),
            final(self).log() == old(self).log(),
            final(self).is_logged() == old(self).is_logged(),
            match r {
                Ok(()) => old(self)@.remove_attached(target) == Step::Done(final(self)@),
                Err(e) => old(self)@.remove_attached(target) == Step::Fail(final(self)@, ApplyErr::NoAttachedObject)
                    && e.id == target,
            },
    {
        match self.silent_set_attached_obj(target, None) {
            Ok(_) => Ok(()),
            Err(e) => Err(e),
        }
    }

    /// Remove the object attached to an edge or hyperedge, and record
    /// `RemoveEdgeData` or `RemoveHyperedgeData`. The edge or hyperedge
    /// stays; every path through the object cascades.
    ///
    /// Error: `NoAttachedObjectError` where `target` is not an edge or
    /// hyperedge with an attached object; the graph and its log are
    /// then unchanged.
    pub fn remove_attached(&mut self, target: AttachTargetId) -> (r: Result<(), NoAttachedObjectError>)
        requires
            old(self).inv(),
        ensures
            final(self).inv(),
            match r {
                Ok(()) => {
                    &&& old(self)@.remove_attached(target) == Step::Done(final(self)@)
                    &&& final(self).log() == old(self).log().push(
                        if old(self)@.hyperedges.contains_key(target) {
                            Patch::RemoveHyperedgeData { id: target }
                        } else {
                            Patch::RemoveEdgeData { id: target }
                        },
                    )
                    &&& final(self).is_logged() == old(self).is_logged()
                },
                Err(e) => {
                    &&& !old(self)@.has_attached_object(target)
                    &&& e.id == target
                    &&& final(self)@ == old(self)@
                    &&& final(self).log() == old(self).log()
                    &&& final(self).is_logged() == old(self).is_logged()
                },
            },
    {
        let ghost before = self@;
        let kind = self.attach_kind(&target);
        let removed = self.silent_remove_attached(target);
        match removed {
            Ok(()) => {
                match kind {
                    Some(AttachKind::Hyperedge) => self.record_patch(Patch::RemoveHyperedgeData { id: target }, Ghost(before)),
                    _ => self.record_patch(Patch::RemoveEdgeData { id: target }, Ghost(before)),
                }
                Ok(())
            },
            Err(e) => Err(e),
        }
    }
}

} // verus!
