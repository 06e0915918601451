//! The mathematical model of a graph and of every change to it.
//!
//! A graph is three maps: the object carried by each id (nodes, and
//! edges or hyperedges with an attached object), the endpoints of each
//! edge, and the members of each hyperedge. Every change is a function
//! of the graph before it; removing anything cascades through
//! [`GraphV::clean`], which drops every edge and hyperedge membership
//! whose pointee no longer resolves, repeatedly, until none is left.

use vstd::prelude::*;
use vstd::set_lib::lemma_len_subset;

use crate::common::global_path::PointeeV;
use crate::common::local_path::local_segments;
use crate::common::object::FieldV;
use crate::common::patch::{ObjectPatch, Patch};
use crate::db::object_patch::{apply_patches_spec, Applied, ObjV, ObjectPatchErrorV};
use crate::db::types::EntityType;

verus! {

/// The value of a graph.
pub struct GraphV {
    pub entities: Map<u128, ObjV>,
    pub edges: Map<u128, (PointeeV, PointeeV)>,
    pub hyperedges: Map<u128, Set<PointeeV>>,
}

/// Follow the segments through nested objects: the field reached by
/// the last segment, or `None` where a segment is missing or passes
/// through a field that is not an object.
pub open spec fn walk(o: ObjV, segs: Seq<Seq<char>>) -> Option<FieldV>
    decreases segs.len(),
{
    if segs.len() == 0 {
        None
    } else if !o.contains_key(segs[0]) {
        None
    } else if segs.len() == 1 {
        Some(o[segs[0]])
    } else {
        match o[segs[0]] {
            FieldV::Object(inner) => walk(inner, segs.drop_first()),
            _ => None,
        }
    }
}

/// A walk of one segment gives the field of that name, if the object
/// has one.
pub proof fn law_walk_one(o: ObjV, k: Seq<char>)
    ensures
        walk(o, seq![k]) == if o.contains_key(k) { Some(o[k]) } else { None::<FieldV> },
{
}

/// Walking one more segment steps into what the shorter walk reached:
/// the longer walk gives the field that the last segment names in that
/// object, and nothing where the shorter walk did not end on an object,
/// or ended on one without that field.
pub proof fn law_walk_step(o: ObjV, s: Seq<Seq<char>>, k: Seq<char>)
    requires
        s.len() > 0,
    ensures
        walk(o, s.push(k)) == match walk(o, s) {
            Some(FieldV::Object(inner)) => if inner.contains_key(k) { Some(inner[k]) } else { None::<FieldV> },
            _ => None::<FieldV>,
        },
    decreases s.len(),
{
    let t = s.push(k);
    assert(t[0] == s[0]);
    if s.len() == 1 {
        assert(t.drop_first() =~= seq![k]);
        if o.contains_key(s[0]) {
            match o[s[0]] {
                FieldV::Object(inner) => law_walk_one(inner, k),
                _ => {},
            }
        }
    } else {
        assert(t.drop_first() =~= s.drop_first().push(k));
        if o.contains_key(s[0]) {
            match o[s[0]] {
                FieldV::Object(inner) => law_walk_step(inner, s.drop_first(), k),
                _ => {},
            }
        }
    }
}

/// Why a change of the graph was refused.
pub enum ApplyErr {
    NodeAlreadyExists,
    AddEdgeMissingEndpoints,
    EdgeAlreadyExists,
    HyperedgeEmpty,
    HyperedgeAlreadyExists,
    HyperedgePointeesNotFound,
    NodeNotFound,
    EdgeNotFound,
    HyperedgeNotFound,
    RetargetEdgeNotFound,
    RetargetInvalidTarget,
    ChangeNotFound,
    ChangeDelta(ObjectPatchErrorV),
    AddMembersHyperedgeNotFound,
    AddMembersAlreadyExist,
    AddMembersPointeesNotFound,
    RemoveMembersHyperedgeNotFound,
    RemoveMembersNotInHyperedge,
    NoAttachedObject,
    AttachTargetNotFound,
    AttachIncorrectType,
}

/// The outcome of a change: the new graph, or the graph after a
/// refused change together with the reason, or a panic.
pub enum Step {
    Done(GraphV),
    Fail(GraphV, ApplyErr),
    Panic,
}

impl GraphV {
    /// The graph with nothing in it.
    pub open spec fn empty() -> GraphV {
        GraphV {
            entities: Map::<u128, ObjV>::empty(),
            edges: Map::<u128, (PointeeV, PointeeV)>::empty(),
            hyperedges: Map::<u128, Set<PointeeV>>::empty(),
        }
    }

    /// `id` is registered as any kind of entity.
    pub open spec fn is_exist(self, id: u128) -> bool {
        self.entities.contains_key(id) || self.edges.contains_key(id) || self.hyperedges.contains_key(id)
    }

    /// `p` resolves: an existing entity, or a path that walks through
    /// the object of an existing entity to a field.
    pub open spec fn pointee_exists(self, p: PointeeV) -> bool {
        match p {
            PointeeV::EntityId(id) => self.is_exist(id),
            PointeeV::Path(e, text) => self.entities.contains_key(e) && walk(self.entities[e], local_segments(text)) is Some,
        }
    }

    /// `id` carries an object and is neither an edge nor a hyperedge.
    pub open spec fn is_node(self, id: u128) -> bool {
        self.entities.contains_key(id) && !self.edges.contains_key(id) && !self.hyperedges.contains_key(id)
    }

    /// `id` is an edge or hyperedge with an object attached.
    pub open spec fn has_attached_object(self, id: u128) -> bool {
        self.entities.contains_key(id) && (self.edges.contains_key(id) || self.hyperedges.contains_key(id))
    }

    /// An endpoint that makes an edge a metaedge: an edge or hyperedge.
    pub open spec fn is_meta_endpoint(self, p: PointeeV) -> bool {
        match p {
            PointeeV::EntityId(id) => self.edges.contains_key(id) || self.hyperedges.contains_key(id),
            PointeeV::Path(_, _) => false,
        }
    }

    /// Classify `id`.
    pub open spec fn get_type(self, id: u128) -> Option<EntityType> {
        let in_entities = self.entities.contains_key(id);
        let in_edges = self.edges.contains_key(id);
        let in_hyper = self.hyperedges.contains_key(id);
        if !in_entities && !in_edges && !in_hyper {
            None
        } else if in_entities && (in_edges || in_hyper) {
            Some(EntityType::AttachedObject)
        } else if in_edges {
            if self.is_meta_endpoint(self.edges[id].0) || self.is_meta_endpoint(self.edges[id].1) {
                Some(EntityType::MetaEdge)
            } else {
                Some(EntityType::Edge)
            }
        } else if in_hyper {
            Some(EntityType::Hyperedge)
        } else {
            Some(EntityType::Node)
        }
    }

    /// An edge with an endpoint that does not resolve.
    pub open spec fn dangling_edge(self, e: u128) -> bool {
        self.edges.contains_key(e) && (!self.pointee_exists(self.edges[e].0) || !self.pointee_exists(self.edges[e].1))
    }

    /// The members of `h` that resolve.
    pub open spec fn live_members(self, h: u128) -> Set<PointeeV> {
        self.hyperedges[h].filter(|p: PointeeV| self.pointee_exists(p))
    }

    /// A hyperedge none of whose members resolve.
    pub open spec fn dead_hyperedge(self, h: u128) -> bool {
        self.hyperedges.contains_key(h) && self.live_members(h) == Set::<PointeeV>::empty()
    }

    /// A hyperedge member that does not resolve.
    pub open spec fn dangling_member(self, h: u128, p: PointeeV) -> bool {
        self.hyperedges.contains_key(h) && self.hyperedges[h].contains(p) && !self.pointee_exists(p)
    }

    /// Some edge or hyperedge refers to a pointee that does not resolve.
    pub open spec fn has_dangling(self) -> bool {
        (exists|e: u128| self.dangling_edge(e)) || (exists|h: u128, p: PointeeV| self.dangling_member(h, p))
    }

    /// One round of cleanup: drop every edge with an unresolved
    /// endpoint, every unresolved hyperedge member, every hyperedge left
    /// without members, and the objects attached to what was dropped.
    pub open spec fn strip(self) -> GraphV {
        GraphV {
            entities: self.entities.restrict(
                self.entities.dom().filter(|id: u128| !self.dangling_edge(id) && !self.dead_hyperedge(id)),
            ),
            edges: self.edges.restrict(self.edges.dom().filter(|e: u128| !self.dangling_edge(e))),
            hyperedges: Map::new(
                |h: u128| self.hyperedges.contains_key(h) && !self.dead_hyperedge(h),
                |h: u128| self.live_members(h),
            ),
        }
    }

    /// The number of edges and hyperedges.
    pub open spec fn structure_count(self) -> nat {
        self.edges.dom().len() + self.hyperedges.dom().len()
    }

    /// Rounds of cleanup until nothing is left unresolved (at most
    /// `fuel` rounds).
    pub open spec fn clean_fuel(self, fuel: nat) -> GraphV
        decreases fuel,
    {
        if fuel == 0 || !self.has_dangling() {
            self
        } else {
            self.strip().clean_fuel((fuel - 1) as nat)
        }
    }

    /// The cascade: remove, transitively, everything that refers to
    /// something that no longer resolves.
    pub open spec fn clean(self) -> GraphV {
        self.clean_fuel(self.structure_count() + 1)
    }

    /// The maps and the member sets are finite.
    pub open spec fn finite(self) -> bool {
        &&& self.entities.dom().finite()
        &&& self.edges.dom().finite()
        &&& self.hyperedges.dom().finite()
        &&& forall|h: u128| #[trigger] self.hyperedges.contains_key(h) ==> self.hyperedges[h].finite()
    }

    /// Every hyperedge has at least one member.
    pub open spec fn hyperedges_nonempty(self) -> bool {
        forall|h: u128| #[trigger] self.hyperedges.contains_key(h) ==> self.hyperedges[h] != Set::<PointeeV>::empty()
    }

    /// A well-formed graph: finite, every hyperedge has a member, and
    /// every edge endpoint and hyperedge member resolves.
    pub open spec fn wf(self) -> bool {
        &&& self.finite()
        &&& self.hyperedges_nonempty()
        &&& !self.has_dangling()
    }

    // ------------------- changes -------------------

    /// Add a node carrying `obj` under `id`.
    pub open spec fn add_node(self, id: u128, obj: ObjV) -> Step {
        if self.entities.contains_key(id) {
            Step::Fail(self, ApplyErr::NodeAlreadyExists)
        } else {
            Step::Done(GraphV { entities: self.entities.insert(id, obj), ..self })
        }
    }

    /// Remove the node `id`, then cascade.
    pub open spec fn remove_node(self, id: u128) -> Step {
        if !self.is_node(id) {
            Step::Fail(self, ApplyErr::NodeNotFound)
        } else {
            Step::Done(GraphV { entities: self.entities.remove(id), ..self }.clean())
        }
    }

    /// Replace the object of the node `id`, then cascade.
    pub open spec fn replace_node(self, id: u128, obj: ObjV) -> Step {
        if !self.is_node(id) {
            Step::Fail(self, ApplyErr::NodeNotFound)
        } else {
            Step::Done(GraphV { entities: self.entities.insert(id, obj), ..self }.clean())
        }
    }

    /// Apply an object delta to the object carried by `id`, then
    /// cascade (also when the delta stops with an error part-way).
    pub open spec fn change_object(self, id: u128, delta: Seq<ObjectPatch>) -> Step {
        if !self.entities.contains_key(id) {
            Step::Fail(self, ApplyErr::ChangeNotFound)
        } else {
            match apply_patches_spec(self.entities[id], delta) {
                Applied::Panic => Step::Panic,
                Applied::Done(o2, None) => Step::Done(GraphV { entities: self.entities.insert(id, o2), ..self }.clean()),
                Applied::Done(o2, Some(e)) => Step::Fail(
                    GraphV { entities: self.entities.insert(id, o2), ..self }.clean(),
                    ApplyErr::ChangeDelta(e),
                ),
            }
        }
    }

    /// Add the edge `id` from `source` to `target`.
    pub open spec fn add_edge(self, id: u128, source: PointeeV, target: PointeeV) -> Step {
        if !self.pointee_exists(source) || !self.pointee_exists(target) {
            Step::Fail(self, ApplyErr::AddEdgeMissingEndpoints)
        } else if self.edges.contains_key(id) {
            Step::Fail(self, ApplyErr::EdgeAlreadyExists)
        } else {
            Step::Done(GraphV { edges: self.edges.insert(id, (source, target)), ..self })
        }
    }

    /// Remove the edge `id` and its attached object, then cascade.
    pub open spec fn remove_edge(self, id: u128) -> Step {
        if !self.edges.contains_key(id) {
            Step::Fail(self, ApplyErr::EdgeNotFound)
        } else {
            Step::Done(GraphV { entities: self.entities.remove(id), edges: self.edges.remove(id), ..self }.clean())
        }
    }

    /// Move the source (`is_source`) or the target of the edge `id` to `p`.
    pub open spec fn retarget_edge(self, id: u128, is_source: bool, p: PointeeV) -> Step {
        if !self.edges.contains_key(id) {
            Step::Fail(self, ApplyErr::RetargetEdgeNotFound)
        } else if !self.pointee_exists(p) {
            Step::Fail(self, ApplyErr::RetargetInvalidTarget)
        } else {
            let (s, t) = self.edges[id];
            Step::Done(GraphV { edges: self.edges.insert(id, if is_source { (p, t) } else { (s, p) }), ..self })
        }
    }

    /// Set the object attached to the edge or hyperedge `id`, whether
    /// one was attached or not, then cascade.
    pub open spec fn upsert_attached(self, id: u128, obj: ObjV) -> Step {
        match self.get_type(id) {
            None => Step::Fail(self, ApplyErr::AttachTargetNotFound),
            Some(EntityType::Node) => Step::Fail(self, ApplyErr::AttachIncorrectType),
            Some(_) => Step::Done(GraphV { entities: self.entities.insert(id, obj), ..self }.clean()),
        }
    }

    /// Attach `obj` to the edge or hyperedge `id`, which must not carry
    /// an object yet.
    pub open spec fn attach(self, id: u128, obj: ObjV) -> Step {
        match self.get_type(id) {
            None => Step::Fail(self, ApplyErr::AttachTargetNotFound),
            Some(t) => if t.is_attach_target_spec() {
                Step::Done(GraphV { entities: self.entities.insert(id, obj), ..self })
            } else {
                Step::Fail(self, ApplyErr::AttachIncorrectType)
            },
        }
    }

    /// Replace the object attached to the edge or hyperedge `id`, then
    /// cascade.
    pub open spec fn replace_attached(self, id: u128, obj: ObjV) -> Step {
        if !self.has_attached_object(id) {
            Step::Fail(self, ApplyErr::NoAttachedObject)
        } else {
            Step::Done(GraphV { entities: self.entities.insert(id, obj), ..self }.clean())
        }
    }

    /// Remove the object attached to the edge or hyperedge `id`, then
    /// cascade.
    pub open spec fn remove_attached(self, id: u128) -> Step {
        if !self.has_attached_object(id) {
            Step::Fail(self, ApplyErr::NoAttachedObject)
        } else {
            Step::Done(GraphV { entities: self.entities.remove(id), ..self }.clean())
        }
    }

    /// Create the hyperedge `id` with the given members.
    pub open spec fn create_hyperedge(self, id: u128, members: Set<PointeeV>) -> Step {
        if members == Set::<PointeeV>::empty() {
            Step::Fail(self, ApplyErr::HyperedgeEmpty)
        } else if self.hyperedges.contains_key(id) {
            Step::Fail(self, ApplyErr::HyperedgeAlreadyExists)
        } else if exists|p: PointeeV| members.contains(p) && !self.pointee_exists(p) {
            Step::Fail(self, ApplyErr::HyperedgePointeesNotFound)
        } else {
            Step::Done(GraphV { hyperedges: self.hyperedges.insert(id, members), ..self })
        }
    }

    /// Remove the hyperedge `id` and its attached object, then cascade.
    pub open spec fn remove_hyperedge(self, id: u128) -> Step {
        if !self.hyperedges.contains_key(id) {
            Step::Fail(self, ApplyErr::HyperedgeNotFound)
        } else {
            Step::Done(GraphV { entities: self.entities.remove(id), hyperedges: self.hyperedges.remove(id), ..self }.clean())
        }
    }

    /// Add members to the hyperedge `id`.
    pub open spec fn add_hyperedge_members(self, id: u128, m: Set<PointeeV>) -> Step {
        if !self.hyperedges.contains_key(id) {
            Step::Fail(self, ApplyErr::AddMembersHyperedgeNotFound)
        } else if exists|p: PointeeV| m.contains(p) && !self.pointee_exists(p) {
            Step::Fail(self, ApplyErr::AddMembersPointeesNotFound)
        } else if exists|p: PointeeV| m.contains(p) && self.hyperedges[id].contains(p) {
            Step::Fail(self, ApplyErr::AddMembersAlreadyExist)
        } else {
            Step::Done(GraphV { hyperedges: self.hyperedges.insert(id, self.hyperedges[id].union(m)), ..self })
        }
    }

    /// Remove members from the hyperedge `id`; a hyperedge left without
    /// members is removed, with its attached object, and the removal
    /// cascades.
    pub open spec fn remove_hyperedge_members(self, id: u128, m: Set<PointeeV>) -> Step {
        if !self.hyperedges.contains_key(id) {
            Step::Fail(self, ApplyErr::RemoveMembersHyperedgeNotFound)
        } else if !m.subset_of(self.hyperedges[id]) {
            Step::Fail(self, ApplyErr::RemoveMembersNotInHyperedge)
        } else if self.hyperedges[id].difference(m) == Set::<PointeeV>::empty() {
            Step::Done(GraphV { entities: self.entities.remove(id), hyperedges: self.hyperedges.remove(id), ..self }.clean())
        } else {
            Step::Done(GraphV { hyperedges: self.hyperedges.insert(id, self.hyperedges[id].difference(m)), ..self })
        }
    }
}


/// Removing one member of a finite set that holds it shrinks it.
proof fn lemma_strict_subset_len<A>(small: Set<A>, big: Set<A>, x: A)
    requires
        big.finite(),
        small.subset_of(big),
        big.contains(x),
        !small.contains(x),
    ensures
        small.len() < big.len(),
{
    assert(small.subset_of(big.remove(x)));
    lemma_len_subset(small, big.remove(x));
}

/// Where `g2` keeps every id of `g` and every object of `g` unchanged,
/// whatever resolves in `g` resolves in `g2`.
pub proof fn lemma_pointee_exists_grows(g: GraphV, g2: GraphV)
    requires
        forall|id: u128| #[trigger] g.is_exist(id) ==> g2.is_exist(id),
        forall|e: u128| #[trigger] g.entities.contains_key(e) ==> g2.entities.contains_key(e) && g2.entities[e] == g.entities[e],
    ensures
        forall|p: PointeeV| #[trigger] g.pointee_exists(p) ==> g2.pointee_exists(p),
{
    assert forall|p: PointeeV| #[trigger] g.pointee_exists(p) implies g2.pointee_exists(p) by {
        match p {
            PointeeV::EntityId(id) => {}
            PointeeV::Path(e, _) => {
                assert(g.entities.contains_key(e));
            }
        }
    }
}

/// A change that only adds ids and objects (keeping every object of
/// `g`), and whose edges and members either were there before or
/// resolve in `g`, leaves a well-formed graph.
pub proof fn lemma_wf_grow(g: GraphV, g2: GraphV)
    requires
        g.wf(),
        g2.finite(),
        g2.hyperedges_nonempty(),
        forall|id: u128| #[trigger] g.is_exist(id) ==> g2.is_exist(id),
        forall|e: u128| #[trigger] g.entities.contains_key(e) ==> g2.entities.contains_key(e) && g2.entities[e] == g.entities[e],
        forall|e: u128| #[trigger] g2.edges.contains_key(e) ==> (g.edges.contains_key(e) && g2.edges[e] == g.edges[e])
            || (g.pointee_exists(g2.edges[e].0) && g.pointee_exists(g2.edges[e].1)),
        forall|h: u128, p: PointeeV| g2.hyperedges.contains_key(h) && #[trigger] g2.hyperedges[h].contains(p) ==>
            (g.hyperedges.contains_key(h) && g.hyperedges[h].contains(p)) || g.pointee_exists(p),
    ensures
        g2.wf(),
{
    lemma_pointee_exists_grows(g, g2);
    assert forall|e: u128| !g2.dangling_edge(e) by {
        if g2.edges.contains_key(e) && g.edges.contains_key(e) && g2.edges[e] == g.edges[e] {
            assert(!g.dangling_edge(e));
        }
    }
    assert forall|h: u128, p: PointeeV| !g2.dangling_member(h, p) by {
        if g2.hyperedges.contains_key(h) && g2.hyperedges[h].contains(p) && g.hyperedges.contains_key(h)
            && g.hyperedges[h].contains(p) {
            assert(!g.dangling_member(h, p));
        }
    }
}

/// What one round of cleanup keeps: finiteness and non-empty
/// hyperedges; it never adds an edge or hyperedge, and where something
/// is left unresolved it either drops an edge or a hyperedge or leaves
/// nothing unresolved.
pub proof fn lemma_strip(g: GraphV)
    requires
        g.finite(),
        g.hyperedges_nonempty(),
    ensures
        g.strip().finite(),
        g.strip().hyperedges_nonempty(),
        g.strip().structure_count() <= g.structure_count(),
        g.has_dangling() ==> g.strip().structure_count() < g.structure_count() || !g.strip().has_dangling(),
{
    let s = g.strip();
    assert(s.entities.dom().subset_of(g.entities.dom()));
    assert(s.edges.dom().subset_of(g.edges.dom()));
    assert(s.hyperedges.dom().subset_of(g.hyperedges.dom()));
    lemma_len_subset(s.entities.dom(), g.entities.dom());
    lemma_len_subset(s.edges.dom(), g.edges.dom());
    lemma_len_subset(s.hyperedges.dom(), g.hyperedges.dom());
    assert forall|h: u128| #[trigger] s.hyperedges.contains_key(h) implies s.hyperedges[h].finite() by {
        g.hyperedges[h].lemma_len_filter(|p: PointeeV| g.pointee_exists(p));
    }
    if exists|e: u128| g.dangling_edge(e) {
        let e = choose|e: u128| g.dangling_edge(e);
        lemma_strict_subset_len(s.edges.dom(), g.edges.dom(), e);
    } else if exists|h: u128| g.dead_hyperedge(h) {
        let h = choose|h: u128| g.dead_hyperedge(h);
        lemma_strict_subset_len(s.hyperedges.dom(), g.hyperedges.dom(), h);
    } else {
        assert(s.entities =~= g.entities);
        assert(s.edges =~= g.edges);
        assert(s.hyperedges.dom() =~= g.hyperedges.dom());
        assert forall|p: PointeeV| #[trigger] s.pointee_exists(p) == g.pointee_exists(p) by {
            match p {
                PointeeV::EntityId(id) => {
                    assert(s.is_exist(id) == g.is_exist(id));
                }
                PointeeV::Path(_, _) => {}
            }
        }
        assert(!s.has_dangling()) by {
            assert forall|e: u128| !s.dangling_edge(e) by {
                assert(!g.dangling_edge(e));
            }
            assert forall|h: u128, p: PointeeV| !s.dangling_member(h, p) by {
                if s.hyperedges.contains_key(h) && s.hyperedges[h].contains(p) {
                    assert(g.live_members(h).contains(p));
                }
            }
        }
    }
}

/// With enough rounds, cleanup leaves a well-formed graph.
pub proof fn lemma_clean_fuel(g: GraphV, fuel: nat)
    requires
        g.finite(),
        g.hyperedges_nonempty(),
        fuel >= g.structure_count() + if g.has_dangling() { 1nat } else { 0nat },
    ensures
        g.clean_fuel(fuel).wf(),
    decreases fuel,
{
    if fuel > 0 && g.has_dangling() {
        lemma_strip(g);
        lemma_clean_fuel(g.strip(), (fuel - 1) as nat);
    }
}

/// The cascade leaves a well-formed graph.
pub proof fn lemma_clean_wf(g: GraphV)
    requires
        g.finite(),
        g.hyperedges_nonempty(),
    ensures
        g.clean().wf(),
{
    lemma_clean_fuel(g, g.structure_count() + 1);
}

/// On a graph where everything resolves the cascade changes nothing.
pub proof fn lemma_clean_noop(g: GraphV)
    requires
        !g.has_dangling(),
    ensures
        g.clean() == g,
{
}

/// What replaying one recorded patch does to a graph.
pub open spec fn apply_patch_spec(g: GraphV, p: Patch) -> Step {
    match p {
        Patch::AddNode { id, obj } => g.add_node(id, obj@),
        Patch::RemoveNode { id } => g.remove_node(id),
        Patch::ChangeNode { id, delta } => g.change_object(id, delta@),
        Patch::UpsertNode { id, obj } => g.replace_node(id, obj@),
        Patch::AddEdge { id, source, target } => g.add_edge(id, source@, target@),
        Patch::RemoveEdge { id } => g.remove_edge(id),
        Patch::RetargetEdge { id, new_target } => g.retarget_edge(id, new_target@.0, new_target@.1),
        Patch::UpsertEdgeData { id, obj } => g.upsert_attached(id, obj@),
        Patch::ChangeEdgeData { id, delta } => g.change_object(id, delta@),
        Patch::RemoveEdgeData { id } => g.remove_attached(id),
        Patch::CreateHyperedge { id, members } => g.create_hyperedge(id, members@),
        Patch::RemoveHyperedge { id } => g.remove_hyperedge(id),
        Patch::AddHyperedgeMembers { id, members } => g.add_hyperedge_members(id, members@),
        Patch::RemoveHyperedgeMembers { id, members } => g.remove_hyperedge_members(id, members@),
        Patch::UpsertHyperedgeData { id, obj } => g.upsert_attached(id, obj@),
        Patch::ChangeHyperedgeData { id, delta } => g.change_object(id, delta@),
        Patch::RemoveHyperedgeData { id } => g.remove_attached(id),
    }
}

/// What replaying a sequence of patches does: each in order, stopping
/// at the first refusal (the changes before it stay).
pub open spec fn replay_spec(g: GraphV, ps: Seq<Patch>) -> Step
    decreases ps.len(),
{
    if ps.len() == 0 {
        Step::Done(g)
    } else {
        match replay_spec(g, ps.drop_last()) {
            Step::Done(g1) => apply_patch_spec(g1, ps.last()),
            other => other,
        }
    }
}

/// Replaying two logs one after the other is replaying their
/// concatenation: the second is replayed on what the first gave, and
/// where the first stops at a refused patch nothing after it applies.
pub proof fn law_replay_concat(g: GraphV, d1: Seq<Patch>, d2: Seq<Patch>)
    ensures
        replay_spec(g, d1 + d2) == match replay_spec(g, d1) {
            Step::Done(g1) => replay_spec(g1, d2),
            other => other,
        },
    decreases d2.len(),
{
    if d2.len() == 0 {
        assert(d1 + d2 =~= d1);
    } else {
        law_replay_concat(g, d1, d2.drop_last());
        assert((d1 + d2).drop_last() =~= d1 + d2.drop_last());
        assert((d1 + d2).last() == d2.last());
    }
}

/// Replaying a prefix and then one more patch.
pub proof fn lemma_replay_step(g: GraphV, ps: Seq<Patch>, i: int)
    requires
        0 <= i < ps.len(),
    ensures
        replay_spec(g, ps.take(i + 1)) == match replay_spec(g, ps.take(i)) {
            Step::Done(g1) => apply_patch_spec(g1, ps[i]),
            other => other,
        },
{
    assert(ps.take(i + 1).drop_last() =~= ps.take(i));
    assert(ps.take(i + 1).last() == ps[i]);
}

/// Once replay stops at a refusal or a panic, the rest of the patches
/// change nothing.
pub proof fn lemma_replay_stops(g: GraphV, ps: Seq<Patch>, i: int)
    requires
        0 <= i <= ps.len(),
        !(replay_spec(g, ps.take(i)) is Done),
    ensures
        replay_spec(g, ps) == replay_spec(g, ps.take(i)),
    decreases ps.len(),
{
    if i == ps.len() {
        assert(ps.take(i) =~= ps);
    } else {
        assert(ps.drop_last().take(i) =~= ps.take(i));
        lemma_replay_stops(g, ps.drop_last(), i);
    }
}

/// Whether a pointee addresses the entity `id`, as a whole or through a
/// path into its object.
pub open spec fn mentions(p: PointeeV, id: u128) -> bool {
    match p {
        PointeeV::EntityId(x) => x == id,
        PointeeV::Path(x, _) => x == id,
    }
}

/// Cleanup only ever removes: every id it keeps was there, with the
/// same object or endpoints, and every hyperedge keeps a subset of its
/// members.
pub proof fn lemma_clean_fuel_shrinks(g: GraphV, fuel: nat)
    ensures
        forall|e: u128| #[trigger] g.clean_fuel(fuel).entities.contains_key(e) ==> g.entities.contains_key(e)
            && g.clean_fuel(fuel).entities[e] == g.entities[e],
        forall|e: u128| #[trigger] g.clean_fuel(fuel).edges.contains_key(e) ==> g.edges.contains_key(e)
            && g.clean_fuel(fuel).edges[e] == g.edges[e],
        forall|h: u128| #[trigger] g.clean_fuel(fuel).hyperedges.contains_key(h) ==> g.hyperedges.contains_key(h)
            && g.clean_fuel(fuel).hyperedges[h].subset_of(g.hyperedges[h]),
    decreases fuel,
{
    if fuel > 0 && g.has_dangling() {
        let s = g.strip();
        lemma_clean_fuel_shrinks(s, (fuel - 1) as nat);
        assert(g.clean_fuel(fuel) == s.clean_fuel((fuel - 1) as nat));
        assert forall|e: u128| #[trigger] s.entities.contains_key(e) implies g.entities.contains_key(e) && s.entities[e] == g.entities[e] by {}
        assert forall|e: u128| #[trigger] s.edges.contains_key(e) implies g.edges.contains_key(e) && s.edges[e] == g.edges[e] by {}
    }
}

/// In a well-formed graph nothing refers to an id that does not exist:
/// no edge endpoint and no hyperedge member addresses it, as a whole or
/// through a path.
pub proof fn lemma_absent_id_unreferenced(g: GraphV, id: u128)
    requires
        g.wf(),
        !g.is_exist(id),
    ensures
        forall|e: u128| #[trigger] g.edges.contains_key(e) ==> !mentions(g.edges[e].0, id) && !mentions(g.edges[e].1, id),
        forall|h: u128, p: PointeeV| g.hyperedges.contains_key(h) && #[trigger] g.hyperedges[h].contains(p) ==> !mentions(p, id),
{
    assert forall|e: u128| #[trigger] g.edges.contains_key(e) implies !mentions(g.edges[e].0, id) && !mentions(g.edges[e].1, id) by {
        assert(!g.dangling_edge(e));
    }
    assert forall|h: u128, p: PointeeV| g.hyperedges.contains_key(h) && #[trigger] g.hyperedges[h].contains(p) implies !mentions(p, id) by {
        assert(!g.dangling_member(h, p));
    }
}

/// Removing a node removes, transitively, everything that referred to
/// it: afterwards the id is gone and no edge or hyperedge member
/// addresses it, directly or through a path.
pub proof fn law_remove_node_cascades(g: GraphV, id: u128)
    requires
        g.wf(),
        g.is_node(id),
    ensures
        g.remove_node(id) matches Step::Done(g2) && {
            &&& g2.wf()
            &&& !g2.is_exist(id)
            &&& forall|e: u128| #[trigger] g2.edges.contains_key(e) ==> !mentions(g2.edges[e].0, id) && !mentions(g2.edges[e].1, id)
            &&& forall|h: u128, p: PointeeV| g2.hyperedges.contains_key(h) && #[trigger] g2.hyperedges[h].contains(p) ==> !mentions(p, id)
        },
{
    let g1 = GraphV { entities: g.entities.remove(id), ..g };
    lemma_clean_wf(g1);
    lemma_clean_fuel_shrinks(g1, g1.structure_count() + 1);
    lemma_absent_id_unreferenced(g1.clean(), id);
}

/// Cleanup removes no node: every node keeps its object.
proof fn lemma_clean_fuel_keeps_nodes(g: GraphV, fuel: nat)
    ensures
        forall|n: u128| #[trigger] g.is_node(n) ==> g.clean_fuel(fuel).is_node(n)
            && g.clean_fuel(fuel).entities[n] == g.entities[n],
    decreases fuel,
{
    if fuel > 0 && g.has_dangling() {
        let s = g.strip();
        assert forall|n: u128| #[trigger] g.is_node(n) implies s.is_node(n) && s.entities[n] == g.entities[n] by {
            assert(!g.dangling_edge(n) && !g.dead_hyperedge(n));
            assert(s.entities.dom().contains(n));
        }
        lemma_clean_fuel_keeps_nodes(s, (fuel - 1) as nat);
    }
}

/// Removing a node removes no other node: every other node keeps its
/// object; and what remains of the edges and hyperedges was there
/// before, with the same endpoints and a subset of the members.
pub proof fn law_remove_node_keeps_others(g: GraphV, id: u128)
    requires
        g.wf(),
        g.is_node(id),
    ensures
        g.remove_node(id) matches Step::Done(g2) && {
            &&& forall|n: u128| #[trigger] g.is_node(n) && n != id ==> g2.is_node(n) && g2.entities[n] == g.entities[n]
            &&& forall|e: u128| #[trigger] g2.edges.contains_key(e) ==> g.edges.contains_key(e) && g2.edges[e] == g.edges[e]
            &&& forall|h: u128| #[trigger] g2.hyperedges.contains_key(h) ==> g.hyperedges.contains_key(h)
                && g2.hyperedges[h].subset_of(g.hyperedges[h])
        },
{
    let g1 = GraphV { entities: g.entities.remove(id), ..g };
    assert forall|n: u128| #[trigger] g.is_node(n) && n != id implies g1.is_node(n) && g1.entities[n] == g.entities[n] by {}
    lemma_clean_fuel_keeps_nodes(g1, g1.structure_count() + 1);
    lemma_clean_fuel_shrinks(g1, g1.structure_count() + 1);
}

/// The entity a pointee lies in.
pub open spec fn owner(p: PointeeV) -> u128 {
    match p {
        PointeeV::EntityId(x) => x,
        PointeeV::Path(x, _) => x,
    }
}

/// `x` needs `id` in `g`, through at most `n` levels: `x` is an edge
/// with an endpoint that lies in `id` or in something that needs `id`,
/// or a hyperedge all of whose members do.
pub open spec fn needs(g: GraphV, x: u128, id: u128, n: nat) -> bool
    decreases n,
{
    n > 0 && {
        ||| g.edges.contains_key(x) && (owner(g.edges[x].0) == id || needs(g, owner(g.edges[x].0), id, (n - 1) as nat)
            || owner(g.edges[x].1) == id || needs(g, owner(g.edges[x].1), id, (n - 1) as nat))
        ||| g.hyperedges.contains_key(x) && forall|p: PointeeV| #[trigger] g.hyperedges[x].contains(p)
            ==> owner(p) == id || needs(g, owner(p), id, (n - 1) as nat)
    }
}

proof fn lemma_needs_mono(g: GraphV, x: u128, id: u128, n: nat, m: nat)
    requires
        needs(g, x, id, n),
        n <= m,
    ensures
        needs(g, x, id, m),
    decreases n,
{
    let e = g.edges[x];
    if g.edges.contains_key(x) && (owner(e.0) == id || needs(g, owner(e.0), id, (n - 1) as nat)
        || owner(e.1) == id || needs(g, owner(e.1), id, (n - 1) as nat)) {
        if needs(g, owner(e.0), id, (n - 1) as nat) {
            lemma_needs_mono(g, owner(e.0), id, (n - 1) as nat, (m - 1) as nat);
        }
        if needs(g, owner(e.1), id, (n - 1) as nat) {
            lemma_needs_mono(g, owner(e.1), id, (n - 1) as nat, (m - 1) as nat);
        }
    } else {
        assert forall|p: PointeeV| #[trigger] g.hyperedges[x].contains(p) implies owner(p) == id
            || needs(g, owner(p), id, (m - 1) as nat) by {
            if needs(g, owner(p), id, (n - 1) as nat) {
                lemma_needs_mono(g, owner(p), id, (n - 1) as nat, (m - 1) as nat);
            }
        }
    }
}

/// What holds of a graph `h` that `k` rounds of cleanup made of `g`
/// without the node `id`: it keeps a part of `g`, and everything of `g`
/// that it lost needs `id`.
spec fn cleanup_inv(g: GraphV, id: u128, h: GraphV, k: nat) -> bool {
    &&& forall|y: u128| #[trigger] h.entities.contains_key(y) ==> g.entities.contains_key(y) && h.entities[y] == g.entities[y]
    &&& forall|e: u128| #[trigger] h.edges.contains_key(e) ==> g.edges.contains_key(e) && h.edges[e] == g.edges[e]
    &&& forall|x: u128| #[trigger] h.hyperedges.contains_key(x) ==> g.hyperedges.contains_key(x)
        && h.hyperedges[x].subset_of(g.hyperedges[x])
    &&& forall|e: u128| #[trigger] g.edges.contains_key(e) && !h.edges.contains_key(e) ==> needs(g, e, id, k)
    &&& forall|x: u128| #[trigger] g.hyperedges.contains_key(x) && !h.hyperedges.contains_key(x) ==> needs(g, x, id, k)
    &&& forall|y: u128| #[trigger] g.entities.contains_key(y) && !h.entities.contains_key(y) && y != id ==> needs(g, y, id, k)
    &&& forall|x: u128, p: PointeeV| h.hyperedges.contains_key(x) && #[trigger] g.hyperedges[x].contains(p)
        && !h.hyperedges[x].contains(p) ==> owner(p) == id || needs(g, owner(p), id, k)
}

/// A pointee that resolved in `g` and no longer resolves in `h` lies in
/// `id` or in something that needs it.
proof fn lemma_unresolved_needs(g: GraphV, id: u128, h: GraphV, k: nat, p: PointeeV)
    requires
        cleanup_inv(g, id, h, k),
        g.pointee_exists(p),
        !h.pointee_exists(p),
    ensures
        owner(p) == id || needs(g, owner(p), id, k),
{
    match p {
        PointeeV::EntityId(y) => {
            if g.entities.contains_key(y) && !h.entities.contains_key(y) {
            } else if g.edges.contains_key(y) {
                assert(!h.edges.contains_key(y));
            } else if g.hyperedges.contains_key(y) {
                assert(!h.hyperedges.contains_key(y));
            }
        },
        PointeeV::Path(y, t) => {
            if h.entities.contains_key(y) {
                assert(h.entities[y] == g.entities[y]);
            }
        },
    }
}

proof fn lemma_cleanup_needs(g: GraphV, id: u128, h: GraphV, k: nat, fuel: nat)
    requires
        g.wf(),
        cleanup_inv(g, id, h, k),
    ensures
        cleanup_inv(g, id, h.clean_fuel(fuel), k + fuel),
    decreases fuel,
{
    if fuel == 0 || !h.has_dangling() {
        assert forall|e: u128| #[trigger] g.edges.contains_key(e) && !h.edges.contains_key(e) implies needs(g, e, id, k + fuel) by {
            lemma_needs_mono(g, e, id, k, k + fuel);
        }
        assert forall|x: u128| #[trigger] g.hyperedges.contains_key(x) && !h.hyperedges.contains_key(x) implies needs(g, x, id, k + fuel) by {
            lemma_needs_mono(g, x, id, k, k + fuel);
        }
        assert forall|y: u128| #[trigger] g.entities.contains_key(y) && !h.entities.contains_key(y) && y != id implies needs(g, y, id, k + fuel) by {
            lemma_needs_mono(g, y, id, k, k + fuel);
        }
        assert forall|x: u128, p: PointeeV| h.hyperedges.contains_key(x) && #[trigger] g.hyperedges[x].contains(p)
            && !h.hyperedges[x].contains(p) implies owner(p) == id || needs(g, owner(p), id, k + fuel) by {
            if owner(p) != id {
                lemma_needs_mono(g, owner(p), id, k, k + fuel);
            }
        }
    } else {
        let s = h.strip();
        let k1 = k + 1;
        // Everything stripped in this round needs `id` within k + 1 levels.
        assert forall|e: u128| #[trigger] h.dangling_edge(e) implies needs(g, e, id, k1) by {
            let (a, b) = h.edges[e];
            assert(g.edges[e] == h.edges[e]);
            assert(!g.dangling_edge(e));
            if !h.pointee_exists(a) {
                lemma_unresolved_needs(g, id, h, k, a);
                if owner(a) != id {
                    lemma_needs_mono(g, owner(a), id, k, k);
                }
            } else {
                lemma_unresolved_needs(g, id, h, k, b);
            }
        }
        assert forall|x: u128| #[trigger] h.dead_hyperedge(x) implies needs(g, x, id, k1) by {
            assert forall|p: PointeeV| #[trigger] g.hyperedges[x].contains(p) implies owner(p) == id
                || needs(g, owner(p), id, (k1 - 1) as nat) by {
                if h.hyperedges[x].contains(p) {
                    assert(!h.live_members(x).contains(p));
                    assert(!g.dangling_member(x, p));
                    lemma_unresolved_needs(g, id, h, k, p);
                }
            }
        }
        assert(cleanup_inv(g, id, s, k1)) by {
            assert forall|e: u128| #[trigger] g.edges.contains_key(e) && !s.edges.contains_key(e) implies needs(g, e, id, k1) by {
                if !h.edges.contains_key(e) {
                    lemma_needs_mono(g, e, id, k, k1);
                } else {
                    assert(h.dangling_edge(e));
                }
            }
            assert forall|x: u128| #[trigger] g.hyperedges.contains_key(x) && !s.hyperedges.contains_key(x) implies needs(g, x, id, k1) by {
                if !h.hyperedges.contains_key(x) {
                    lemma_needs_mono(g, x, id, k, k1);
                } else {
                    assert(h.dead_hyperedge(x));
                }
            }
            assert forall|y: u128| #[trigger] g.entities.contains_key(y) && !s.entities.contains_key(y) && y != id implies needs(g, y, id, k1) by {
                if !h.entities.contains_key(y) {
                    lemma_needs_mono(g, y, id, k, k1);
                } else {
                    assert(h.dangling_edge(y) || h.dead_hyperedge(y));
                }
            }
            assert forall|x: u128, p: PointeeV| s.hyperedges.contains_key(x) && #[trigger] g.hyperedges[x].contains(p)
                && !s.hyperedges[x].contains(p) implies owner(p) == id || needs(g, owner(p), id, k1) by {
                if !h.hyperedges[x].contains(p) {
                    if owner(p) != id {
                        lemma_needs_mono(g, owner(p), id, k, k1);
                    }
                } else {
                    assert(!h.live_members(x).contains(p));
                    assert(!g.dangling_member(x, p));
                    lemma_unresolved_needs(g, id, h, k, p);
                    if owner(p) != id {
                        lemma_needs_mono(g, owner(p), id, k, k1);
                    }
                }
            }
        }
        lemma_cleanup_needs(g, id, s, k1, (fuel - 1) as nat);
        assert(k1 + (fuel - 1) as nat == k + fuel);
    }
}

/// Removing a node removes only what needed it: every other entity,
/// edge or hyperedge that is gone afterwards had an endpoint (or, for a
/// hyperedge, all its members) in the node or in something else that
/// needed it.
pub proof fn law_remove_node_takes_only_dependents(g: GraphV, id: u128)
    requires
        g.wf(),
        g.is_node(id),
    ensures
        g.remove_node(id) matches Step::Done(g2) && forall|x: u128| #[trigger] g.is_exist(x) && !g2.is_exist(x) && x != id
            ==> exists|n: nat| needs(g, x, id, n),
{
    let g1 = GraphV { entities: g.entities.remove(id), ..g };
    let f = g1.structure_count() + 1;
    assert(cleanup_inv(g, id, g1, 0));
    lemma_cleanup_needs(g, id, g1, 0, f);
    let g2 = g1.clean_fuel(f);
    assert forall|x: u128| #[trigger] g.is_exist(x) && !g2.is_exist(x) && x != id implies exists|n: nat| needs(g, x, id, n) by {
        if g.entities.contains_key(x) {
            assert(needs(g, x, id, f));
        } else if g.edges.contains_key(x) {
            assert(needs(g, x, id, f));
        } else {
            assert(needs(g, x, id, f));
        }
    }
}

/// Removing an edge removes, transitively, everything that referred to
/// it (its attached object included).
pub proof fn law_remove_edge_cascades(g: GraphV, id: u128)
    requires
        g.wf(),
        g.edges.contains_key(id),
        !g.hyperedges.contains_key(id),
    ensures
        g.remove_edge(id) matches Step::Done(g2) && {
            &&& g2.wf()
            &&& !g2.is_exist(id)
            &&& forall|e: u128| #[trigger] g2.edges.contains_key(e) ==> !mentions(g2.edges[e].0, id) && !mentions(g2.edges[e].1, id)
            &&& forall|h: u128, p: PointeeV| g2.hyperedges.contains_key(h) && #[trigger] g2.hyperedges[h].contains(p) ==> !mentions(p, id)
        },
{
    let g1 = GraphV { entities: g.entities.remove(id), edges: g.edges.remove(id), ..g };
    lemma_clean_wf(g1);
    lemma_clean_fuel_shrinks(g1, g1.structure_count() + 1);
    lemma_absent_id_unreferenced(g1.clean(), id);
}

/// Removing a hyperedge removes, transitively, everything that
/// referred to it (its attached object included).
pub proof fn law_remove_hyperedge_cascades(g: GraphV, id: u128)
    requires
        g.wf(),
        g.hyperedges.contains_key(id),
        !g.edges.contains_key(id),
    ensures
        g.remove_hyperedge(id) matches Step::Done(g2) && {
            &&& g2.wf()
            &&& !g2.is_exist(id)
            &&& forall|e: u128| #[trigger] g2.edges.contains_key(e) ==> !mentions(g2.edges[e].0, id) && !mentions(g2.edges[e].1, id)
            &&& forall|h: u128, p: PointeeV| g2.hyperedges.contains_key(h) && #[trigger] g2.hyperedges[h].contains(p) ==> !mentions(p, id)
        },
{
    let g1 = GraphV { entities: g.entities.remove(id), hyperedges: g.hyperedges.remove(id), ..g };
    lemma_clean_wf(g1);
    lemma_clean_fuel_shrinks(g1, g1.structure_count() + 1);
    lemma_absent_id_unreferenced(g1.clean(), id);
}

/// Adding a node under a fresh id and removing it again gives back the
/// graph.
pub proof fn law_add_node_undone(g: GraphV, id: u128, obj: ObjV)
    requires
        g.wf(),
        !g.is_exist(id),
    ensures
        g.add_node(id, obj) matches Step::Done(g2) && g2.remove_node(id) == Step::Done(g),
{
    let g2 = GraphV { entities: g.entities.insert(id, obj), ..g };
    assert(g2.entities.remove(id) =~= g.entities);
    assert(GraphV { entities: g2.entities.remove(id), ..g2 } == g);
    lemma_clean_noop(g);
}

/// Adding an edge under a fresh id and removing it again gives back the
/// graph.
pub proof fn law_add_edge_undone(g: GraphV, id: u128, source: PointeeV, target: PointeeV)
    requires
        g.wf(),
        !g.is_exist(id),
        g.pointee_exists(source),
        g.pointee_exists(target),
    ensures
        g.add_edge(id, source, target) matches Step::Done(g2) && g2.remove_edge(id) == Step::Done(g),
{
    let g2 = GraphV { edges: g.edges.insert(id, (source, target)), ..g };
    assert(g2.entities.remove(id) =~= g.entities);
    assert(g2.edges.remove(id) =~= g.edges);
    assert(GraphV { entities: g2.entities.remove(id), edges: g2.edges.remove(id), ..g2 } == g);
    lemma_clean_noop(g);
}

/// Creating a hyperedge under a fresh id and removing it again gives
/// back the graph.
pub proof fn law_create_hyperedge_undone(g: GraphV, id: u128, members: Set<PointeeV>)
    requires
        g.wf(),
        !g.is_exist(id),
        members != Set::<PointeeV>::empty(),
        forall|p: PointeeV| #[trigger] members.contains(p) ==> g.pointee_exists(p),
    ensures
        g.create_hyperedge(id, members) matches Step::Done(g2) && g2.remove_hyperedge(id) == Step::Done(g),
{
    let g2 = GraphV { hyperedges: g.hyperedges.insert(id, members), ..g };
    assert(g2.entities.remove(id) =~= g.entities);
    assert(g2.hyperedges.remove(id) =~= g.hyperedges);
    assert(GraphV { entities: g2.entities.remove(id), hyperedges: g2.hyperedges.remove(id), ..g2 } == g);
    lemma_clean_noop(g);
}

/// Attaching an object to an edge or hyperedge and removing it again
/// gives back the graph.
pub proof fn law_attach_undone(g: GraphV, id: u128, obj: ObjV)
    requires
        g.wf(),
        g.get_type(id) matches Some(t) && t.is_attach_target_spec(),
    ensures
        g.attach(id, obj) matches Step::Done(g2) && g2.remove_attached(id) == Step::Done(g),
{
    let g2 = GraphV { entities: g.entities.insert(id, obj), ..g };
    assert(g2.entities.remove(id) =~= g.entities);
    assert(GraphV { entities: g2.entities.remove(id), ..g2 } == g);
    lemma_clean_noop(g);
}

/// Adding new members to a hyperedge and removing them again gives back
/// the graph.
pub proof fn law_add_members_undone(g: GraphV, id: u128, m: Set<PointeeV>)
    requires
        g.wf(),
        g.hyperedges.contains_key(id),
        forall|p: PointeeV| #[trigger] m.contains(p) ==> g.pointee_exists(p) && !g.hyperedges[id].contains(p),
    ensures
        g.add_hyperedge_members(id, m) matches Step::Done(g2) && g2.remove_hyperedge_members(id, m) == Step::Done(g),
{
    let s = g.hyperedges[id];
    let g2 = GraphV { hyperedges: g.hyperedges.insert(id, s.union(m)), ..g };
    assert(s.union(m).difference(m) =~= s);
    assert(g2.hyperedges.insert(id, s) =~= g.hyperedges);
    assert(m.subset_of(s.union(m)));
}

/// Moving an endpoint of an edge and moving it back gives back the
/// graph.
pub proof fn law_retarget_undone(g: GraphV, id: u128, is_source: bool, p: PointeeV)
    requires
        g.wf(),
        g.edges.contains_key(id),
        g.pointee_exists(p),
    ensures
        g.retarget_edge(id, is_source, p) matches Step::Done(g2)
            && g2.retarget_edge(id, is_source, if is_source { g.edges[id].0 } else { g.edges[id].1 }) == Step::Done(g),
{
    let (s, t) = g.edges[id];
    assert(!g.dangling_edge(id));
    let g2 = GraphV { edges: g.edges.insert(id, if is_source { (p, t) } else { (s, p) }), ..g };
    assert(g2.pointee_exists(if is_source { s } else { t }));
    assert(g2.edges.insert(id, (s, t)) =~= g.edges);
}

/// Replaying a single patch is applying it.
pub proof fn lemma_replay_single(g: GraphV, p: Patch)
    ensures
        replay_spec(g, seq![p]) == apply_patch_spec(g, p),
{
    assert(seq![p].drop_last() =~= Seq::<Patch>::empty());
    assert(replay_spec(g, Seq::<Patch>::empty()) == Step::Done(g));
}

} // verus!
