#![allow(unused_imports, dead_code, unused_variables, unused_mut)]

use cograph::common::global_path::{GlobalObjPath, Pointee};
use cograph::common::local_path::LocalObjPath;
use cograph::common::object::{Field, Object};
use cograph::common::patch::{ObjectPatch, Patch, RetargetEdge};
use cograph::common::pointee_set::PointeeSet;
use cograph::db::errors::{
    AddEdgeError, AddHyperedgeMembersError, ApplyPatchError, AttachObjectError, CreateHyperedgeError,
    DeltaError, EdgeAlreadyExistsError, EdgeNotFoundError, EntityNotFoundError, GetEdgeError,
    HyperedgeAlreadyExistsError, HyperedgeNotFoundError, IncorrectTypeError, InvalidRetargetError,
    MembersAlreadyExistError, MembersNotInHyperedgeError, MissingEndpointsError, NoAttachedObjectError,
    NodeAlreadyExistsError, NodeNotFoundError, PointeesNotFoundError, RemoveHyperedgeMembersError,
    RetargetError,
};
use cograph::db::graph::Graph;
use cograph::db::object_patch::ObjectPatchError;
use cograph::db::types::{EdgeView, EntityType, PointeeKind};
use std::collections::HashSet;
use uuid::Uuid;
use cograph::db::incidence::neighborhood::{in_neighbours, neighbours, out_neighbours};
use cograph::db::paths::{directed_paths, undirected_paths};

fn create_simple_obj(field_name: &str) -> Object {
    let mut obj = Object::new();
    obj.insert(field_name.to_string(), Field::Null);
    obj
}

/// A set of pointees.
fn set_of(ps: Vec<Pointee>) -> PointeeSet {
    PointeeSet::from_vec(ps)
}

/// Every edge endpoint and every hyperedge member resolves, and every
/// hyperedge has a member.
fn assert_well_formed(g: &Graph) {
    for e in g.iter_edges() {
        let v = g.edge(&e).unwrap();
        assert!(g.is_pointee_exist(&v.source), "edge {} has a dangling source", e);
        assert!(g.is_pointee_exist(&v.target), "edge {} has a dangling target", e);
    }
    for h in g.iter_hyperedges() {
        let m = g.hyperedge_members(&h).unwrap();
        assert!(!m.is_empty(), "hyperedge {} is empty", h);
        for i in 0..m.len() {
            assert!(g.is_pointee_exist(m.get(i)), "hyperedge {} has a dangling member", h);
        }
    }
}

/// How many edge endpoints and hyperedge members are paths into the
/// object of `id`.
fn paths_through(g: &Graph, id: u128) -> usize {
    let through = |p: &Pointee| matches!(p, Pointee::Path(gp) if gp.entity() == id);
    let mut n = 0;
    for e in g.iter_edges() {
        let v = g.edge(&e).unwrap();
        if through(&v.source) {
            n += 1;
        }
        if through(&v.target) {
            n += 1;
        }
    }
    for h in g.iter_hyperedges() {
        let m = g.hyperedge_members(&h).unwrap();
        for i in 0..m.len() {
            if through(m.get(i)) {
                n += 1;
            }
        }
    }
    n
}

/// How many edge endpoints and hyperedge members are `p`.
fn uses_of(g: &Graph, p: &Pointee) -> usize {
    let mut n = 0;
    for e in g.iter_edges() {
        let v = g.edge(&e).unwrap();
        if &v.source == p {
            n += 1;
        }
        if &v.target == p {
            n += 1;
        }
    }
    for h in g.iter_hyperedges() {
        if g.hyperedge_members(&h).unwrap().contains(p) {
            n += 1;
        }
    }
    n
}

/// The endpoints of the edge `e`, if it is one.
fn endpoints(g: &Graph, e: &u128) -> Option<(Pointee, Pointee)> {
    g.edge(e).ok().map(|v| (v.source, v.target))
}

fn obj_with(fields: &[(&str, Field)]) -> Object {
    let mut o = Object::new();
    for (k, v) in fields {
        o.insert((*k).into(), v.clone());
    }
    o
}

// Built graph:
//  ---------
//  | n1 ---|----e1---n2
//  |       |    |    |
//  |       |    |    |
//  |       |    e3---e4-----
//  |       |    |          |
//  | n3 ---|---e2----n4    |
//  --h------               |
//    |                     |
//    |----------------------
fn create_sample_graph1() -> (Graph, u128, u128, u128, u128, u128, u128, u128, u128, u128, u128) {
    let mut g = Graph::default();
    let obj = create_simple_obj("test_field");
    let n1 = g.add_node(obj.clone());
    let n2 = g.add_node(obj.clone());
    let n3 = g.add_node(obj.clone());
    let n4 = g.add_node(obj.clone());

    let e1 = g.add_edge(n1.into(), n2.into()).unwrap();
    let e2 = g.add_edge(n3.into(), n4.into()).unwrap();
    let e3 = g.add_edge(e1.into(), e2.into()).unwrap();
    let e4 = g.add_edge(e3.into(), n2.into()).unwrap();

    let mut m = PointeeSet::new();
    m.insert(n1.into());
    m.insert(n3.into());

    let h = g.create_hyperedge(m).unwrap();
    let e5 = g.add_edge(h.into(), e4.into()).unwrap();

    (g, n1, n2, n3, n4, e1, e2, e3, e4, e5, h)
}

// Built graph:
//  n1 ---- e_a ----- n2
//  |\
//  |  ----------------
//  |                 |
//  edge_to_h     meta_edge
//  |                 |
//  -------           |     --------
//  |  n3-|----------e_b----|---n4 |
//  |     |-----------------|      |
//  |                              |
//  |-----------h------------------|
fn create_sample_graph2() -> (Graph, u128, u128, u128, u128, u128, u128, u128, u128, u128) {
    let mut graph = Graph::default();
    let obj = create_simple_obj("test_field");

    let n1 = graph.add_node(obj.clone());
    let n2 = graph.add_node(obj.clone());
    let n3 = graph.add_node(obj.clone());
    let n4 = graph.add_node(obj.clone());

    let e_a = graph.add_edge(n1.into(), n2.into()).unwrap();
    let e_b = graph.add_edge(n3.into(), n4.into()).unwrap();
    let meta_edge = graph.add_edge(n1.into(), e_b.into()).unwrap();

    let mut m = PointeeSet::new();
    m.insert(n3.into());
    m.insert(n4.into());

    let h = graph.create_hyperedge(m).unwrap();
    let edge_to_h = graph.add_edge(n1.into(), h.into()).unwrap();

    (graph, n1, n2, n3, n4, e_a, e_b, meta_edge, edge_to_h, h)
}

// Built graph (`e2` is directed `n3 -> n1` on purpose; `e4` is parallel
// to `e3`):
//
//  n1 ----------- e1 ---------- n2
//   ^                          / |
//    \         /----- e3 -----   |
//     -- e2 - n3 -------- e4 ----
fn create_sample_graph3() -> (Graph, u128, u128, u128, u128, u128, u128, u128) {
    let mut graph = Graph::default();
    let obj = create_simple_obj("attached");

    let n1 = graph.add_node(obj.clone());
    let n2 = graph.add_node(obj.clone());
    let n3 = graph.add_node(obj.clone());

    let e1 = graph.add_edge(n1.into(), n2.into()).unwrap();
    let e2 = graph.add_edge(n3.into(), n1.into()).unwrap();
    let e3 = graph.add_edge(n3.into(), n2.into()).unwrap();
    let e4 = graph.add_edge(n3.into(), n2.into()).unwrap();

    (graph, n1, n2, n3, e1, e2, e3, e4)
}

// ---- neighborhood ----

/// A simple case
#[test]
fn test_neighbours1() {
    // Built graph:
    // ```text
    //  node1 --(edge)--> node2
    //   ^
    //   |
    // (edge2)
    //   |
    //  node3
    // ```
    let mut graph = Graph::default();

    let field1 = create_simple_obj("filed1");
    let field2 = create_simple_obj("filed2");
    let field3 = create_simple_obj("filed3");
    let node_id1 = graph.add_node(field1);
    let node_id2 = graph.add_node(field2);
    let node_id3 = graph.add_node(field3);
    graph.add_edge(node_id1.into(), node_id2.into()).unwrap();
    graph.add_edge(node_id3.into(), node_id1.into()).unwrap();

    let neighbours = neighbours(&graph, &node_id1).unwrap();
    assert_eq!(neighbours.len(), 2);
    assert!(neighbours.contains(&Pointee::EntityId(node_id2)));
    assert!(neighbours.contains(&Pointee::EntityId(node_id3)));
}

/// A more complex case with edge beetween edges
/// Test that get_neighbours will return only nodes,
/// but not edges, even if edge is beetween two edges
#[test]
fn test_neighbours2() {
    // Built graph:
    // ```text
    //  node1 --(edge1)--> node2
    //            |
    //          (edge3) < -- (edge4) -- node5
    //            |
    //            v
    //  node3 --(edge2)--> node4
    // ```
    let mut graph = Graph::default();

    let field1 = create_simple_obj("node1");
    let field2 = create_simple_obj("node2");
    let node_id1 = graph.add_node(field1);
    let node_id2 = graph.add_node(field2);
    let edge1 = graph.add_edge(node_id1.into(), node_id2.into()).unwrap();

    let field3 = create_simple_obj("node3");
    let field4 = create_simple_obj("node4");
    let node_id3 = graph.add_node(field3);
    let node_id4 = graph.add_node(field4);
    let edge2 = graph.add_edge(node_id3.into(), node_id4.into()).unwrap();

    let edge3 = graph.add_edge(edge1.into(), edge2.into()).unwrap();

    let field5 = create_simple_obj("node5");
    let node_id5 = graph.add_node(field5);
    let _edge4 = graph.add_edge(node_id5.into(), edge3.into()).unwrap();

    let neighbours = neighbours(&graph, &edge3).unwrap();
    assert_eq!(neighbours.len(), 1);
    assert!(neighbours.contains(&Pointee::EntityId(node_id5)));
}

/// Test node connected to node\edge\hyperedge
#[test]
fn test_neighbours3() {
    let (graph, n1, n2, _, _, e_a, e_b, _, _, h) = create_sample_graph2();
    let neighbours: HashSet<_> =
        neighbours(&graph, &n1).unwrap().into_iter().collect();

    let expected: HashSet<_> = [
        Pointee::EntityId(n2),
        Pointee::EntityId(e_b),
        Pointee::EntityId(h),
    ]
    .into_iter()
    .collect();
    assert_eq!(neighbours, expected);

    // Sanity: the bridging edge `e_a` itself is a path,
    // not a destination, so it must not appear.
    assert!(!neighbours.contains(&Pointee::EntityId(e_a)));
}

/// `id` must not appear in its own neighbours list when
/// it is a member of a hyperedge that includes it.
/// Guards specifically against a regression where the
/// iteration over hyperedge members forgets the
/// `m != id` skip.
#[test]
fn test_neighbours4() {
    // Built graph:
    // ```text
    //   h = {n1, n2}
    // ```
    let mut graph = Graph::default();
    let obj = create_simple_obj("test_field");

    let n1 = graph.add_node(obj.clone());
    let n2 = graph.add_node(obj.clone());

    let mut m = PointeeSet::new();
    m.insert(n1.into());
    m.insert(n2.into());

    let _h = graph.create_hyperedge(m);

    let neighbours: HashSet<_> = neighbours(&graph, &n1).unwrap().into_iter().collect();

    assert!(
        !neighbours.contains(&Pointee::EntityId(n1)),
        "n1 must not be listed as its own neighbour"
    );
    let expected: HashSet<_> = [Pointee::EntityId(n2)].into_iter().collect();
    assert_eq!(neighbours, expected);
}

#[test]
fn test_out_neighbours() {
    let (graph, n1, n2, n3, _e1, _e2, _e3, _e4) = create_sample_graph3();

    let from_n1: HashSet<_> =
        out_neighbours(&graph, &n1).unwrap().into_iter().collect();
    let from_n2: HashSet<_> =
        out_neighbours(&graph, &n2).unwrap().into_iter().collect();
    let from_n3: HashSet<_> =
        out_neighbours(&graph, &n3).unwrap().into_iter().collect();

    // n1 → n2 only.
    assert_eq!(from_n1, [Pointee::from(n2)].into_iter().collect());
    // n2 has no outgoing.
    assert_eq!(from_n2, HashSet::new());
    // n3 → n1 (via e2), n3 → n2 (via e3 and e4 — dedupes).
    assert_eq!(
        from_n3,
        [Pointee::from(n1), Pointee::from(n2)].into_iter().collect()
    );
}

#[test]
fn test_in_neighbours() {
    let (graph, n1, n2, n3, _e1, _e2, _e3, _e4) = create_sample_graph3();

    let into_n1: HashSet<_> =
        in_neighbours(&graph, &n1).unwrap().into_iter().collect();
    let into_n2: HashSet<_> =
        in_neighbours(&graph, &n2).unwrap().into_iter().collect();
    let into_n3: HashSet<_> =
        in_neighbours(&graph, &n3).unwrap().into_iter().collect();

    // n3 → n1.
    assert_eq!(into_n1, [Pointee::from(n3)].into_iter().collect());
    // n1 → n2 (via e1), n3 → n2 (via e3 and e4 — dedupes).
    assert_eq!(
        into_n2,
        [Pointee::from(n1), Pointee::from(n3)].into_iter().collect()
    );
    // n3 has no incoming.
    assert_eq!(into_n3, HashSet::new());
}

// ---- paths ----

/// Direction is ignored, so even though `e2` is recorded
/// `n3 → n1`, the undirected walk uses it as `n1 → n3`.
/// All four edges should appear in the result.
#[test]
fn test_undirected_paths() {
    let (graph, n1, n2, n3, e1, e2, e3, e4) = create_sample_graph3();

    let result = undirected_paths(&graph, n1, n2);

    let result_nodes: HashSet<_> = result.iter_nodes().into_iter().collect();
    let result_edges: HashSet<_> = result.iter_edges().into_iter().collect();

    assert_eq!(result_nodes, [n1, n2, n3].into_iter().collect());
    assert_eq!(result_edges, [e1, e2, e3, e4].into_iter().collect());
}

/// Direction matters. The only `n1 → n2` path is `e1`:
/// `e2` goes `n3 → n1` (wrong way), so we never reach `n3`
/// from `n1`, and `e3`/`e4` are unreachable.
#[test]
fn test_directed_paths() {
    let (graph, n1, n2, _n3, e1, _e2, _e3, _e4) = create_sample_graph3();

    let result = directed_paths(&graph, n1, n2);

    let result_nodes: HashSet<_> = result.iter_nodes().into_iter().collect();
    let result_edges: HashSet<_> = result.iter_edges().into_iter().collect();

    assert_eq!(result_nodes, [n1, n2].into_iter().collect());
    assert_eq!(result_edges, [e1].into_iter().collect());
}
