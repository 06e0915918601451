//! In-memory graph storage and the operations that change it.
//!
//! [`Graph`] holds the objects carried by nodes (and attached to edges
//! and hyperedges), the endpoints of every edge, the members of every
//! hyperedge, and the log of every change made through its public
//! operations.
//!
//! Its value is a [`GraphV`]; every operation is specified by the
//! change of that value defined in `model`. Two facts hold of every
//! graph (see [`Graph::inv`]):
//!
//! - it is well formed: every edge endpoint and every hyperedge member
//!   resolves, and every hyperedge has at least one member;
//! - while every change was made through the public operations,
//!   replaying the log on an empty graph gives back its value.
//!
//! The graph keeps no reverse index from a pointee to the edges and
//! hyperedges that refer to it: such an index would be keyed by
//! [`Pointee`], a structure this library does not use as a hash-map key
//! in verified code. The cascade instead finds what no longer resolves
//! by scanning the edges and hyperedges, round by round, until nothing
//! is left dangling.

use std::collections::HashMap;

use vstd::prelude::*;

use crate::common::global_path::Pointee;
use crate::common::ids::{EdgeId, EntityId, HyperedgeId};
use crate::common::object::Object;
use crate::common::patch::Patch;
use crate::common::pointee_set::PointeeSet;
use crate::db::model::{apply_patch_spec, replay_spec, GraphV, Step};

pub mod apply_patch;
pub mod cascade;
pub mod constructors;
pub mod destructors;
pub mod modifiers;
pub mod queries;

verus! {

broadcast use vstd::std_specs::hash::group_hash_axioms;

/// A graph of nodes, edges and hyperedges, with its change log.
pub struct Graph {
    /// Object carried by each id: nodes always, edges and hyperedges
    /// only once an object was attached to them.
    entities: HashMap<EntityId, Object>,
    /// Source and target of each edge.
    edges: HashMap<EdgeId, (Pointee, Pointee)>,
    /// Members of each hyperedge.
    hyperedges: HashMap<HyperedgeId, PointeeSet>,
    /// Every change made through the public operations, in order.
    events: Vec<Patch>,
    /// Whether every change of the value was recorded in `events`.
    logged: Ghost<bool>,
}

impl View for Graph {
    type V = GraphV;

    closed spec fn view(&self) -> GraphV {
        GraphV {
            entities: self.entities@.map_values(|o: Object| o@),
            edges: self.edges@.map_values(|e: (Pointee, Pointee)| (e.0@, e.1@)),
            hyperedges: self.hyperedges@.map_values(|s: PointeeSet| s@),
        }
    }
}

impl Graph {
    /// The graph is well formed and, while every change was recorded,
    /// replaying its log on an empty graph gives back its value.
    pub closed spec fn inv(&self) -> bool {
        &&& self@.wf()
        &&& self.logged@ ==> replay_spec(GraphV::empty(), self.events@) == Step::Done(self@)
    }

    /// The object stored for `id`, as the value it was given.
    pub closed spec fn stored(&self, id: EntityId) -> Object {
        self.entities@[id]
    }

    /// The recorded changes.
    pub closed spec fn log(&self) -> Seq<Patch> {
        self.events@
    }

    /// Every change of the value was recorded in the log.
    pub closed spec fn is_logged(&self) -> bool {
        self.logged@
    }

    /// An empty graph with an empty log.
    pub fn new() -> (g: Self)
        ensures
            g.inv(),
            g@ == GraphV::empty(),
            g.log() == Seq::<Patch>::empty(),
            g.is_logged(),
    {
        let g = Graph {
            entities: HashMap::new(),
            edges: HashMap::new(),
            hyperedges: HashMap::new(),
            events: Vec::new(),
            logged: Ghost(true),
        };
        assert(g@.entities =~= GraphV::empty().entities);
        assert(g@.edges =~= GraphV::empty().edges);
        assert(g@.hyperedges =~= GraphV::empty().hyperedges);
        g
    }

    /// The recorded changes, oldest first.
    pub fn events(&self) -> (r: &Vec<Patch>)
        ensures
            r@ == self.log(),
    {
        &self.events
    }

    /// Append `p` to the log after a change from `before` to the
    /// current value; the log stays complete where `p` stands for that
    /// change.
    fn record_patch(&mut self, p: Patch, Ghost(before): Ghost<GraphV>)
        requires
            old(self)@.wf(),
            old(self).logged@ ==> replay_spec(GraphV::empty(), old(self).events@) == Step::Done(before),
        ensures
            final(self).inv(),
            final(self)@ == old(self)@,
            final(self).log() == old(self).log().push(p),
            final(self).is_logged() == (old(self).is_logged() && apply_patch_spec(before, p) == Step::Done(old(self)@)),
    {
        let ghost ev = self.events@;
        let ghost complete = self.logged@ && apply_patch_spec(before, p) == Step::Done(self@);
        self.events.push(p);
        self.logged = Ghost(complete);
        proof {
            assert(self.events@.drop_last() =~= ev);
        }
    }
}

/// Every graph is well formed: each edge endpoint and each hyperedge
/// member resolves, and each hyperedge has at least one member.
pub proof fn law_well_formed(g: &Graph)
    requires
        g.inv(),
    ensures
        g@.wf(),
{
}

/// Replaying the log of a graph, every change of which was recorded,
/// on a fresh graph reconstructs it: `apply_patch` of the log on an
/// empty graph succeeds and leaves the same value.
pub proof fn law_replay_reconstructs(g: &Graph, fresh: &Graph)
    requires
        g.inv(),
        g.is_logged(),
        fresh@ == GraphV::empty(),
    ensures
        replay_spec(fresh@, g.log()) == Step::Done(g@),
{
}

impl Default for Graph {
    fn default() -> (g: Self)
        ensures
            g.inv(),
            g@ == GraphV::empty(),
            g.log() == Seq::<Patch>::empty(),
            g.is_logged(),
    {
        Graph::new()
    }
}

} // verus!
