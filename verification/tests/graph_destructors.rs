#![allow(unused_imports, dead_code, unused_variables, unused_mut)]

use cograph::common::global_path::{GlobalObjPath, Pointee};
use cograph::common::local_path::LocalObjPath;
use cograph::common::object::{Field, Object};
use cograph::common::patch::{ObjectPatch, Patch, RetargetEdge};
use cograph::common::pointee_set::PointeeSet;
use cograph::db::errors::{
    AddEdgeError, AddHyperedgeMembersError, ApplyPatchError, AttachObjectError, CreateHyperedgeError,
    DeltaError, EdgeAlreadyExistsError, EdgeNotFoundError, EntityNotFoundError, GetEdgeError,
    HyperedgeAlreadyExistsError, HyperedgeNotFoundError, IncorrectTypeError, InvalidRetargetError,
    MembersAlreadyExistError, MembersNotInHyperedgeError, MissingEndpointsError, NoAttachedObjectError,
    NodeAlreadyExistsError, NodeNotFoundError, PointeesNotFoundError, RemoveHyperedgeMembersError,
    RetargetError,
};
use cograph::db::graph::Graph;
use cograph::db::object_patch::ObjectPatchError;
use cograph::db::types::{EdgeView, EntityType, PointeeKind};
use std::collections::HashSet;
use uuid::Uuid;

fn create_simple_obj(field_name: &str) -> Object {
    let mut obj = Object::new();
    obj.insert(field_name.to_string(), Field::Null);
    obj
}

/// A set of pointees.
fn set_of(ps: Vec<Pointee>) -> PointeeSet {
    PointeeSet::from_vec(ps)
}

/// Every edge endpoint and every hyperedge member resolves, and every
/// hyperedge has a member.
fn assert_well_formed(g: &Graph) {
    for e in g.iter_edges() {
        let v = g.edge(&e).unwrap();
        assert!(g.is_pointee_exist(&v.source), "edge {} has a dangling source", e);
        assert!(g.is_pointee_exist(&v.target), "edge {} has a dangling target", e);
    }
    for h in g.iter_hyperedges() {
        let m = g.hyperedge_members(&h).unwrap();
        assert!(!m.is_empty(), "hyperedge {} is empty", h);
        for i in 0..m.len() {
            assert!(g.is_pointee_exist(m.get(i)), "hyperedge {} has a dangling member", h);
        }
    }
}

/// How many edge endpoints and hyperedge members are paths into the
/// object of `id`.
fn paths_through(g: &Graph, id: u128) -> usize {
    let through = |p: &Pointee| matches!(p, Pointee::Path(gp) if gp.entity() == id);
    let mut n = 0;
    for e in g.iter_edges() {
        let v = g.edge(&e).unwrap();
        if through(&v.source) {
            n += 1;
        }
        if through(&v.target) {
            n += 1;
        }
    }
    for h in g.iter_hyperedges() {
        let m = g.hyperedge_members(&h).unwrap();
        for i in 0..m.len() {
            if through(m.get(i)) {
                n += 1;
            }
        }
    }
    n
}

/// How many edge endpoints and hyperedge members are `p`.
fn uses_of(g: &Graph, p: &Pointee) -> usize {
    let mut n = 0;
    for e in g.iter_edges() {
        let v = g.edge(&e).unwrap();
        if &v.source == p {
            n += 1;
        }
        if &v.target == p {
            n += 1;
        }
    }
    for h in g.iter_hyperedges() {
        if g.hyperedge_members(&h).unwrap().contains(p) {
            n += 1;
        }
    }
    n
}

/// The endpoints of the edge `e`, if it is one.
fn endpoints(g: &Graph, e: &u128) -> Option<(Pointee, Pointee)> {
    g.edge(e).ok().map(|v| (v.source, v.target))
}

fn obj_with(fields: &[(&str, Field)]) -> Object {
    let mut o = Object::new();
    for (k, v) in fields {
        o.insert((*k).into(), v.clone());
    }
    o
}

// Built graph:
//  ---------
//  | n1 ---|----e1---n2
//  |       |    |    |
//  |       |    |    |
//  |       |    e3---e4-----
//  |       |    |          |
//  | n3 ---|---e2----n4    |
//  --h------               |
//    |                     |
//    |----------------------
fn create_sample_graph1() -> (Graph, u128, u128, u128, u128, u128, u128, u128, u128, u128, u128) {
    let mut g = Graph::default();
    let obj = create_simple_obj("test_field");
    let n1 = g.add_node(obj.clone());
    let n2 = g.add_node(obj.clone());
    let n3 = g.add_node(obj.clone());
    let n4 = g.add_node(obj.clone());

    let e1 = g.add_edge(n1.into(), n2.into()).unwrap();
    let e2 = g.add_edge(n3.into(), n4.into()).unwrap();
    let e3 = g.add_edge(e1.into(), e2.into()).unwrap();
    let e4 = g.add_edge(e3.into(), n2.into()).unwrap();

    let mut m = PointeeSet::new();
    m.insert(n1.into());
    m.insert(n3.into());

    let h = g.create_hyperedge(m).unwrap();
    let e5 = g.add_edge(h.into(), e4.into()).unwrap();

    (g, n1, n2, n3, n4, e1, e2, e3, e4, e5, h)
}

// Built graph:
//  n1 ---- e_a ----- n2
//  |\
//  |  ----------------
//  |                 |
//  edge_to_h     meta_edge
//  |                 |
//  -------           |     --------
//  |  n3-|----------e_b----|---n4 |
//  |     |-----------------|      |
//  |                              |
//  |-----------h------------------|
fn create_sample_graph2() -> (Graph, u128, u128, u128, u128, u128, u128, u128, u128, u128) {
    let mut graph = Graph::default();
    let obj = create_simple_obj("test_field");

    let n1 = graph.add_node(obj.clone());
    let n2 = graph.add_node(obj.clone());
    let n3 = graph.add_node(obj.clone());
    let n4 = graph.add_node(obj.clone());

    let e_a = graph.add_edge(n1.into(), n2.into()).unwrap();
    let e_b = graph.add_edge(n3.into(), n4.into()).unwrap();
    let meta_edge = graph.add_edge(n1.into(), e_b.into()).unwrap();

    let mut m = PointeeSet::new();
    m.insert(n3.into());
    m.insert(n4.into());

    let h = graph.create_hyperedge(m).unwrap();
    let edge_to_h = graph.add_edge(n1.into(), h.into()).unwrap();

    (graph, n1, n2, n3, n4, e_a, e_b, meta_edge, edge_to_h, h)
}

// Built graph (`e2` is directed `n3 -> n1` on purpose; `e4` is parallel
// to `e3`):
//
//  n1 ----------- e1 ---------- n2
//   ^                          / |
//    \         /----- e3 -----   |
//     -- e2 - n3 -------- e4 ----
fn create_sample_graph3() -> (Graph, u128, u128, u128, u128, u128, u128, u128) {
    let mut graph = Graph::default();
    let obj = create_simple_obj("attached");

    let n1 = graph.add_node(obj.clone());
    let n2 = graph.add_node(obj.clone());
    let n3 = graph.add_node(obj.clone());

    let e1 = graph.add_edge(n1.into(), n2.into()).unwrap();
    let e2 = graph.add_edge(n3.into(), n1.into()).unwrap();
    let e3 = graph.add_edge(n3.into(), n2.into()).unwrap();
    let e4 = graph.add_edge(n3.into(), n2.into()).unwrap();

    (graph, n1, n2, n3, e1, e2, e3, e4)
}

// ---- test_remove_attached ----

/// Unknown id — neither node nor attach target.
#[test]
fn test_remove_attached_unknown_id() {
    let mut g = Graph::default();
    let err = g.remove_attached(Uuid::new_v4().as_u128()).unwrap_err();
    assert!(matches!(err, NoAttachedObjectError { .. }));
}

/// A bare node has no attached object — removal must fail
/// rather than silently delete the node.
#[test]
fn test_remove_attached_rejects_node_id() {
    let mut g = Graph::default();
    let n1 = g.add_node(create_simple_obj("f"));

    let err = g.remove_attached(n1).unwrap_err();
    assert!(matches!(err, NoAttachedObjectError { .. }));
    assert!(g.is_exist(&n1));
    assert!(g.obj(&n1).is_some());
}

/// A bare edge (no attach_obj called) — nothing to remove.
#[test]
fn test_remove_attached_rejects_bare_edge() {
    let mut g = Graph::default();
    let obj = create_simple_obj("f");
    let n1 = g.add_node(obj.clone());
    let n2 = g.add_node(obj);
    let e = g.add_edge(n1.into(), n2.into()).unwrap();

    let err = g.remove_attached(e).unwrap_err();
    assert!(matches!(err, NoAttachedObjectError { .. }));
    assert!(g.edge(&e).is_ok());
}

/// Attached object on an edge: edge stays alive, attached
/// object gone, RemoveEdgeData patch recorded.
#[test]
fn test_remove_attached_removes_edge_attached() {
    let mut g = Graph::default();
    let obj = create_simple_obj("f");
    let n1 = g.add_node(obj.clone());
    let n2 = g.add_node(obj.clone());
    let e = g.add_edge(n1.into(), n2.into()).unwrap();
    g.attach_obj(e, obj).unwrap();

    g.remove_attached(e).unwrap();

    assert!(g.edge(&e).is_ok());
    assert!(!g.obj(&e).is_some());
    assert_eq!(*g.events().last().unwrap(), Patch::RemoveEdgeData { id: e });
    assert_well_formed(&g);
}

/// Attached object on a hyperedge: hyperedge stays alive,
/// attached object gone, RemoveHyperedgeData patch recorded.
#[test]
fn test_remove_attached_removes_hyperedge_attached() {
    let mut g = Graph::default();
    let obj = create_simple_obj("f");
    let n1 = g.add_node(obj.clone());

    let mut m = PointeeSet::new();
    m.insert(n1.into());
    let h = g.create_hyperedge(m).unwrap();
    g.attach_obj(h, obj).unwrap();

    g.remove_attached(h).unwrap();

    assert!(g.hyperedge_members(&h).is_some());
    assert!(!g.obj(&h).is_some());
    assert_eq!(
        *g.events().last().unwrap(),
        Patch::RemoveHyperedgeData { id: h }
    );
    assert_well_formed(&g);
}

/// EntityId references survive — only Path references die.
#[test]
fn test_remove_attached_entity_id_references_survive() {
    let mut g = Graph::default();
    let obj = create_simple_obj("f");
    let n1 = g.add_node(obj.clone());
    let n2 = g.add_node(obj.clone());
    let e = g.add_edge(n1.into(), n2.into()).unwrap();
    g.attach_obj(e, obj).unwrap();

    // Edge that points at `e` as a whole entity.
    let n3 = g.add_node(create_simple_obj("g"));
    let meta = g.add_edge(n3.into(), e.into()).unwrap();

    g.remove_attached(e).unwrap();

    assert!(g.edge(&e).is_ok());
    assert!(g.edge(&meta).is_ok());
    assert_well_formed(&g);
}

/// Path references through the attach target die.
#[test]
fn test_remove_attached_cascades_path_references() {
    let mut g = Graph::default();
    let obj = create_simple_obj("f");
    let n1 = g.add_node(obj.clone());
    let n2 = g.add_node(obj.clone());
    let e = g.add_edge(n1.into(), n2.into()).unwrap();
    let attached = create_simple_obj("data");
    g.attach_obj(e, attached).unwrap();

    // Edge whose endpoint is a path through `e`'s attached object.
    let n3 = g.add_node(create_simple_obj("g"));
    let path = Pointee::Path(GlobalObjPath::new(e, "data").unwrap());
    let dangling = g.add_edge(n3.into(), path.into()).unwrap();

    g.remove_attached(e).unwrap();

    assert!(g.edge(&e).is_ok());
    assert!(!g.edge(&dangling).is_ok());
    assert_eq!(paths_through(&g, e), 0);
    assert_well_formed(&g);
}

/// Records exactly one data-removal patch even when the
/// path-cascade kills downstream structures.
#[test]
fn test_remove_attached_records_single_patch_on_cascade() {
    let mut g = Graph::default();
    let obj = create_simple_obj("f");
    let n1 = g.add_node(obj.clone());
    let n2 = g.add_node(obj.clone());
    let e = g.add_edge(n1.into(), n2.into()).unwrap();
    g.attach_obj(e, create_simple_obj("data"))
        .unwrap();

    let n3 = g.add_node(obj);
    let path = Pointee::Path(GlobalObjPath::new(e, "data").unwrap());
    let _dangling = g.add_edge(n3.into(), path.into()).unwrap();

    g.remove_attached(e).unwrap();

    let count = g
        .events()
        .iter()
        .filter(|p| {
            matches!(
                p,
                Patch::RemoveEdgeData { .. } | Patch::RemoveHyperedgeData { .. }
            )
        })
        .count();
    assert_eq!(count, 1);
}

// ---- test_remove_hyperedge ----

/// Removing an unknown id returns an error.
#[test]
fn test_remove_hyperedge_unknown_id() {
    let mut g = Graph::default();
    let err = g.remove_hyperedge(&Uuid::new_v4().as_u128()).unwrap_err();
    assert!(matches!(err, HyperedgeNotFoundError { .. }));
}

/// Plain remove: hyperedge gone, members survive without
/// `hid` in their `hyperedges` set.
#[test]
fn test_remove_hyperedge_removes_and_unregisters_members() {
    let mut g = Graph::default();
    let obj = create_simple_obj("f");
    let n1 = g.add_node(obj.clone());
    let n2 = g.add_node(obj);

    let mut m = PointeeSet::new();
    m.insert(n1.into());
    m.insert(n2.into());
    let h = g.create_hyperedge(m.clone()).unwrap();

    let returned = g.remove_hyperedge(&h).unwrap();

    assert_eq!(returned, m);
    assert!(!g.hyperedge_members(&h).is_some());
    assert!(g.is_exist(&n1));
    assert!(g.is_exist(&n2));
    assert_well_formed(&g);
}

/// Edges that pointed at the hyperedge cascade away.
#[test]
fn test_remove_hyperedge_cascades_to_referencing_edges() {
    let mut g = Graph::default();
    let obj = create_simple_obj("f");
    let n1 = g.add_node(obj.clone());
    let n2 = g.add_node(obj);

    let mut m = PointeeSet::new();
    m.insert(n1.into());
    let h = g.create_hyperedge(m).unwrap();
    let e = g.add_edge(n2.into(), h.into()).unwrap();

    g.remove_hyperedge(&h).unwrap();

    assert!(!g.hyperedge_members(&h).is_some());
    assert!(!g.edge(&e).is_ok());
    assert!(g.is_exist(&n2));
    assert_well_formed(&g);
}

/// Removing a hyperedge that's a member of another hyperedge:
/// the parent loses this member; if parent becomes empty, it
/// dies too.
#[test]
fn test_remove_hyperedge_cascades_to_parent_hyperedge_when_emptied() {
    let mut g = Graph::default();
    let obj = create_simple_obj("f");
    let n1 = g.add_node(obj);

    let mut inner_m = PointeeSet::new();
    inner_m.insert(n1.into());
    let inner = g.create_hyperedge(inner_m).unwrap();

    let mut outer_m = PointeeSet::new();
    outer_m.insert(inner.into());
    let outer = g.create_hyperedge(outer_m).unwrap();

    g.remove_hyperedge(&inner).unwrap();

    assert!(!g.hyperedge_members(&inner).is_some());
    assert!(!g.hyperedge_members(&outer).is_some());
    assert_well_formed(&g);
}

/// Parent hyperedge with multiple members loses one — survives.
#[test]
fn test_remove_hyperedge_parent_hyperedge_loses_only_this_member() {
    let mut g = Graph::default();
    let obj = create_simple_obj("f");
    let n1 = g.add_node(obj.clone());
    let n2 = g.add_node(obj);

    let mut inner_m = PointeeSet::new();
    inner_m.insert(n1.into());
    let inner = g.create_hyperedge(inner_m).unwrap();

    let mut outer_m = PointeeSet::new();
    outer_m.insert(inner.into());
    outer_m.insert(n2.into());
    let outer = g.create_hyperedge(outer_m).unwrap();

    g.remove_hyperedge(&inner).unwrap();

    let mut expected = PointeeSet::new();
    expected.insert(n2.into());
    assert_eq!(g.hyperedge_members(&outer), Some(&expected));
    assert_well_formed(&g);
}

/// Attached object on the hyperedge is dropped along with it.
#[test]
fn test_remove_hyperedge_drops_attached_object() {
    let mut g = Graph::default();
    let obj = create_simple_obj("f");
    let n1 = g.add_node(obj.clone());

    let mut m = PointeeSet::new();
    m.insert(n1.into());
    let h = g.create_hyperedge(m).unwrap();
    g.attach_obj(h, obj).unwrap();
    assert!(g.obj(&h).is_some());

    g.remove_hyperedge(&h).unwrap();

    assert!(!g.obj(&h).is_some());
    assert_well_formed(&g);
}

/// Records exactly one `Patch::RemoveHyperedge` even on a cascade.
#[test]
fn test_remove_hyperedge_records_single_patch_on_cascade() {
    let mut g = Graph::default();
    let obj = create_simple_obj("f");
    let n1 = g.add_node(obj.clone());
    let n2 = g.add_node(obj);

    let mut m = PointeeSet::new();
    m.insert(n1.into());
    let h = g.create_hyperedge(m).unwrap();
    let _e = g.add_edge(n2.into(), h.into()).unwrap();

    g.remove_hyperedge(&h).unwrap();

    let last = g.events().last().unwrap();
    assert_eq!(*last, Patch::RemoveHyperedge { id: h });
    let count = g
        .events()
        .iter()
        .filter(|p| matches!(p, Patch::RemoveHyperedge { .. }))
        .count();
    assert_eq!(count, 1);
}

// ---- test_remove_node ----

/// `remove_node` rejects an unknown id.
#[test]
fn test_remove_node_unknown_id() {
    let mut g = Graph::default();
    let err = g.remove_node(&Uuid::new_v4().as_u128()).unwrap_err();
    assert!(matches!(err, NodeNotFoundError { .. }));
}

/// Removing a node returns its attached object as Field::Object.
#[test]
fn test_remove_node_returns_object() {
    let mut g = Graph::default();
    let obj = create_simple_obj("f");
    let n1 = g.add_node(obj.clone());
    let returned = g.remove_node(&n1).unwrap();
    assert_eq!(returned, Field::Object(obj));
    assert!(!g.is_exist(&n1));
    assert_well_formed(&g);
}

/// Removing `n1` cascades to `e: n1 → n2`.
/// `n2` survives and nothing refers to it any more.
#[test]
fn test_remove_node_cascades_direct_edge_reference() {
    let mut g = Graph::default();
    let obj = create_simple_obj("f");
    let n1 = g.add_node(obj.clone());
    let n2 = g.add_node(obj);
    let e = g.add_edge(n1.into(), n2.into()).unwrap();

    g.remove_node(&n1).unwrap();

    assert!(!g.is_exist(&n1));
    assert!(!g.edge(&e).is_ok());
    assert!(g.is_exist(&n2));
    assert_well_formed(&g);
}

/// Removing `n2` cascades to `e: n1 → n2/field` (Path-pointee).
/// No path into `n2`'s object is left.
#[test]
fn test_remove_node_cascades_path_reference() {
    let mut g = Graph::default();
    let obj = create_simple_obj("test_field");
    let n1 = g.add_node(obj.clone());
    let n2 = g.add_node(obj);

    let path = Pointee::Path(GlobalObjPath::new(n2, "test_field").unwrap());
    let e = g.add_edge(n1.into(), path.clone().into()).unwrap();

    g.remove_node(&n2).unwrap();

    assert!(!g.is_exist(&n2));
    assert!(!g.edge(&e).is_ok());
    assert!(g.is_exist(&n1));
    assert_eq!(paths_through(&g, n2), 0);
    assert_well_formed(&g);
}

/// Self-loop `e: n1 → n1`: nothing refers to `n1` after its removal.
#[test]
fn test_remove_node_cascades_self_loop() {
    let mut g = Graph::default();
    let obj = create_simple_obj("f");
    let n1 = g.add_node(obj);
    let e = g.add_edge(n1.into(), n1.into()).unwrap();

    g.remove_node(&n1).unwrap();

    assert!(!g.edge(&e).is_ok());
    assert!(g.iter_edges().is_empty());
    assert!(g.iter_hyperedges().is_empty());
    assert_well_formed(&g);
}

/// Chain: `e1: n1 → n2`, `e2: n3 → e1`. Removing `n1` must
/// cascade to `e1` and then to `e2` (since `e1` is `e2`'s target).
#[test]
fn test_remove_node_cascades_through_meta_edge() {
    let mut g = Graph::default();
    let obj = create_simple_obj("f");
    let n1 = g.add_node(obj.clone());
    let n2 = g.add_node(obj.clone());
    let n3 = g.add_node(obj);

    let e1 = g.add_edge(n1.into(), n2.into()).unwrap();
    let e2 = g.add_edge(n3.into(), e1.into()).unwrap();

    g.remove_node(&n1).unwrap();

    assert!(!g.edge(&e1).is_ok());
    assert!(!g.edge(&e2).is_ok());
    assert!(g.is_exist(&n2));
    assert!(g.is_exist(&n3));
    assert_well_formed(&g);
}

/// Hyperedge with two members loses one — survives with the other.
#[test]
fn test_remove_node_hyperedge_loses_member_but_survives() {
    let mut g = Graph::default();
    let obj = create_simple_obj("f");
    let n1 = g.add_node(obj.clone());
    let n2 = g.add_node(obj);

    let mut m = PointeeSet::new();
    m.insert(n1.into());
    m.insert(n2.into());
    let h = g.create_hyperedge(m).unwrap();

    g.remove_node(&n1).unwrap();

    let mut expected = PointeeSet::new();
    expected.insert(n2.into());
    assert_eq!(g.hyperedge_members(&h), Some(&expected));
    assert_well_formed(&g);
}

/// Hyperedge with the only member `n1` becomes empty when `n1` dies
/// and is itself cascade-removed.
#[test]
fn test_remove_node_hyperedge_empties_and_dies() {
    let mut g = Graph::default();
    let obj = create_simple_obj("f");
    let n1 = g.add_node(obj);

    let mut m = PointeeSet::new();
    m.insert(n1.into());
    let h = g.create_hyperedge(m).unwrap();

    g.remove_node(&n1).unwrap();

    assert!(!g.hyperedge_members(&h).is_some());
    assert_well_formed(&g);
}

/// Cascade reaches edges that pointed at a hyperedge that
/// itself died from emptying.
#[test]
fn test_remove_node_cascade_through_dead_hyperedge() {
    let mut g = Graph::default();
    let obj = create_simple_obj("f");
    let n1 = g.add_node(obj.clone());
    let n2 = g.add_node(obj);

    let mut m = PointeeSet::new();
    m.insert(n1.into());
    let h = g.create_hyperedge(m).unwrap();
    // edge from n2 to the soon-to-die hyperedge
    let e = g.add_edge(n2.into(), h.into()).unwrap();

    g.remove_node(&n1).unwrap();

    assert!(!g.hyperedge_members(&h).is_some());
    assert!(!g.edge(&e).is_ok());
    assert!(g.is_exist(&n2));
    assert_well_formed(&g);
}

/// `remove_node` rejects ids that live in `entities` because of
/// `attach_obj` on an edge — those are NOT nodes.
#[test]
fn test_remove_node_rejects_attached_object_id() {
    let mut g = Graph::default();
    let obj = create_simple_obj("f");
    let n1 = g.add_node(obj.clone());
    let n2 = g.add_node(obj.clone());
    let e = g.add_edge(n1.into(), n2.into()).unwrap();
    g.attach_obj(e, obj).unwrap();

    let err = g.remove_node(&e).unwrap_err();
    assert!(matches!(err, NodeNotFoundError { .. }));
    // Edge itself untouched.
    assert!(g.edge(&e).is_ok());
    assert_well_formed(&g);
}

/// Records exactly one `Patch::RemoveNode` even on a cascade.
#[test]
fn test_remove_node_records_single_patch_on_cascade() {
    let mut g = Graph::default();
    let obj = create_simple_obj("f");
    let n1 = g.add_node(obj.clone());
    let n2 = g.add_node(obj);
    let _e = g.add_edge(n1.into(), n2.into()).unwrap();

    g.remove_node(&n1).unwrap();

    let last = g.events().last().unwrap();
    assert_eq!(*last, Patch::RemoveNode { id: n1 });
    let remove_count = g
        .events()
        .iter()
        .filter(|p| matches!(p, Patch::RemoveNode { .. }))
        .count();
    assert_eq!(remove_count, 1);
}
