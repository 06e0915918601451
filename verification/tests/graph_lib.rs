#![allow(unused_imports, dead_code, unused_variables, unused_mut)]

use cograph::common::global_path::{GlobalObjPath, Pointee};
use cograph::common::local_path::LocalObjPath;
use cograph::common::object::{Field, Object};
use cograph::common::patch::{ObjectPatch, Patch, RetargetEdge};
use cograph::common::pointee_set::PointeeSet;
use cograph::db::errors::{
    AddEdgeError, AddHyperedgeMembersError, ApplyPatchError, AttachObjectError, CreateHyperedgeError,
    DeltaError, EdgeAlreadyExistsError, EdgeNotFoundError, EntityNotFoundError, GetEdgeError,
    HyperedgeAlreadyExistsError, HyperedgeNotFoundError, IncorrectTypeError, InvalidRetargetError,
    MembersAlreadyExistError, MembersNotInHyperedgeError, MissingEndpointsError, NoAttachedObjectError,
    NodeAlreadyExistsError, NodeNotFoundError, PointeesNotFoundError, RemoveHyperedgeMembersError,
    RetargetError,
};
use cograph::db::graph::Graph;
use cograph::db::object_patch::ObjectPatchError;
use cograph::db::types::{EdgeView, EntityType, PointeeKind};
use std::collections::HashSet;
use std::collections::HashMap;
use uuid::Uuid;

fn create_simple_obj(field_name: &str) -> Object {
    let mut obj = Object::new();
    obj.insert(field_name.to_string(), Field::Null);
    obj
}

/// A set of pointees.
fn set_of(ps: Vec<Pointee>) -> PointeeSet {
    PointeeSet::from_vec(ps)
}

/// Every edge endpoint and every hyperedge member resolves, and every
/// hyperedge has a member.
fn assert_well_formed(g: &Graph) {
    for e in g.iter_edges() {
        let v = g.edge(&e).unwrap();
        assert!(g.is_pointee_exist(&v.source), "edge {} has a dangling source", e);
        assert!(g.is_pointee_exist(&v.target), "edge {} has a dangling target", e);
    }
    for h in g.iter_hyperedges() {
        let m = g.hyperedge_members(&h).unwrap();
        assert!(!m.is_empty(), "hyperedge {} is empty", h);
        for i in 0..m.len() {
            assert!(g.is_pointee_exist(m.get(i)), "hyperedge {} has a dangling member", h);
        }
    }
}

/// How many edge endpoints and hyperedge members are paths into the
/// object of `id`.
fn paths_through(g: &Graph, id: u128) -> usize {
    let through = |p: &Pointee| matches!(p, Pointee::Path(gp) if gp.entity() == id);
    let mut n = 0;
    for e in g.iter_edges() {
        let v = g.edge(&e).unwrap();
        if through(&v.source) {
            n += 1;
        }
        if through(&v.target) {
            n += 1;
        }
    }
    for h in g.iter_hyperedges() {
        let m = g.hyperedge_members(&h).unwrap();
        for i in 0..m.len() {
            if through(m.get(i)) {
                n += 1;
            }
        }
    }
    n
}

/// How many edge endpoints and hyperedge members are `p`.
fn uses_of(g: &Graph, p: &Pointee) -> usize {
    let mut n = 0;
    for e in g.iter_edges() {
        let v = g.edge(&e).unwrap();
        if &v.source == p {
            n += 1;
        }
        if &v.target == p {
            n += 1;
        }
    }
    for h in g.iter_hyperedges() {
        if g.hyperedge_members(&h).unwrap().contains(p) {
            n += 1;
        }
    }
    n
}

/// The endpoints of the edge `e`, if it is one.
fn endpoints(g: &Graph, e: &u128) -> Option<(Pointee, Pointee)> {
    g.edge(e).ok().map(|v| (v.source, v.target))
}

fn obj_with(fields: &[(&str, Field)]) -> Object {
    let mut o = Object::new();
    for (k, v) in fields {
        o.insert((*k).into(), v.clone());
    }
    o
}

// Built graph:
//  ---------
//  | n1 ---|----e1---n2
//  |       |    |    |
//  |       |    |    |
//  |       |    e3---e4-----
//  |       |    |          |
//  | n3 ---|---e2----n4    |
//  --h------               |
//    |                     |
//    |----------------------
fn create_sample_graph1() -> (Graph, u128, u128, u128, u128, u128, u128, u128, u128, u128, u128) {
    let mut g = Graph::default();
    let obj = create_simple_obj("test_field");
    let n1 = g.add_node(obj.clone());
    let n2 = g.add_node(obj.clone());
    let n3 = g.add_node(obj.clone());
    let n4 = g.add_node(obj.clone());

    let e1 = g.add_edge(n1.into(), n2.into()).unwrap();
    let e2 = g.add_edge(n3.into(), n4.into()).unwrap();
    let e3 = g.add_edge(e1.into(), e2.into()).unwrap();
    let e4 = g.add_edge(e3.into(), n2.into()).unwrap();

    let mut m = PointeeSet::new();
    m.insert(n1.into());
    m.insert(n3.into());

    let h = g.create_hyperedge(m).unwrap();
    let e5 = g.add_edge(h.into(), e4.into()).unwrap();

    (g, n1, n2, n3, n4, e1, e2, e3, e4, e5, h)
}

// Built graph:
//  n1 ---- e_a ----- n2
//  |\
//  |  ----------------
//  |                 |
//  edge_to_h     meta_edge
//  |                 |
//  -------           |     --------
//  |  n3-|----------e_b----|---n4 |
//  |     |-----------------|      |
//  |                              |
//  |-----------h------------------|
fn create_sample_graph2() -> (Graph, u128, u128, u128, u128, u128, u128, u128, u128, u128) {
    let mut graph = Graph::default();
    let obj = create_simple_obj("test_field");

    let n1 = graph.add_node(obj.clone());
    let n2 = graph.add_node(obj.clone());
    let n3 = graph.add_node(obj.clone());
    let n4 = graph.add_node(obj.clone());

    let e_a = graph.add_edge(n1.into(), n2.into()).unwrap();
    let e_b = graph.add_edge(n3.into(), n4.into()).unwrap();
    let meta_edge = graph.add_edge(n1.into(), e_b.into()).unwrap();

    let mut m = PointeeSet::new();
    m.insert(n3.into());
    m.insert(n4.into());

    let h = graph.create_hyperedge(m).unwrap();
    let edge_to_h = graph.add_edge(n1.into(), h.into()).unwrap();

    (graph, n1, n2, n3, n4, e_a, e_b, meta_edge, edge_to_h, h)
}

// Built graph (`e2` is directed `n3 -> n1` on purpose; `e4` is parallel
// to `e3`):
//
//  n1 ----------- e1 ---------- n2
//   ^                          / |
//    \         /----- e3 -----   |
//     -- e2 - n3 -------- e4 ----
fn create_sample_graph3() -> (Graph, u128, u128, u128, u128, u128, u128, u128) {
    let mut graph = Graph::default();
    let obj = create_simple_obj("attached");

    let n1 = graph.add_node(obj.clone());
    let n2 = graph.add_node(obj.clone());
    let n3 = graph.add_node(obj.clone());

    let e1 = graph.add_edge(n1.into(), n2.into()).unwrap();
    let e2 = graph.add_edge(n3.into(), n1.into()).unwrap();
    let e3 = graph.add_edge(n3.into(), n2.into()).unwrap();
    let e4 = graph.add_edge(n3.into(), n2.into()).unwrap();

    (graph, n1, n2, n3, e1, e2, e3, e4)
}

/// Iterator yields nodes, edges, and hyperedges all together.
#[test]
fn test_iter_entities1() {
    let (g, n1, n2, n3, n4, e1, e2, e3, e4, e5, h) = create_sample_graph1();

    let mut expected = HashSet::new();
    expected.insert(n1);
    expected.insert(n2);
    expected.insert(n3);
    expected.insert(n4);
    expected.insert(e1);
    expected.insert(e2);
    expected.insert(e3);
    expected.insert(e4);
    expected.insert(e5);
    expected.insert(h);

    let actual: Vec<_> = g.iter_entities().into_iter().collect();

    // 1. No duplicates: every entity appears at most once.
    let mut counts: HashMap<u128, usize> = HashMap::new();
    for e in &actual {
        *counts.entry(*e).or_insert(0) += 1;
    }
    let duplicates: Vec<_> = counts
        .iter()
        .filter(|(_, c)| **c > 1)
        .map(|(e, c)| (*e, *c))
        .collect();
    if !duplicates.is_empty() {
        panic!("global_entities returned duplicates: {:?}", duplicates);
    }

    // 2. Coverage matches exactly: no missing, no extras.
    let actual_set: HashSet<_> = actual.iter().copied().collect();
    let missing: Vec<_> = expected.difference(&actual_set).copied().collect();
    let unexpected: Vec<_> = actual_set.difference(&expected).copied().collect();
    if !missing.is_empty() || !unexpected.is_empty() {
        panic!(
            "global_entities mismatch — missing: {:?}, unexpected: {:?}",
            missing, unexpected
        );
    }
}

/// Verify deduplication: an id that lives in more than one
/// storage map must be yielded by `iter_entities` only
/// once.
///
/// Setup creates two cross-map collisions on purpose:
/// - `e1` lives as an edge *and*, after `attach_obj`, as
///   an entity (object attached to that edge).
/// - `h`  lives as a hyperedge *and*, after `attach_obj`,
///   as an entity.
///
/// If `iter_entities` ever stops deduplicating (e.g.
/// someone removes the trailing `collect::<HashSet<_>>()`),
/// `e1` and `h` would each show up twice and this test
/// catches it.
#[test]
fn test_iter_entities2() {
    let mut g = Graph::default();
    let obj = create_simple_obj("test_field");
    let n1 = g.add_node(obj.clone());
    let n2 = g.add_node(obj.clone());

    let e1 = g.add_edge(n1.into(), n2.into()).unwrap();
    g.attach_obj(e1, obj.clone()).unwrap();

    let mut m = PointeeSet::new();
    m.insert(n1.into());
    m.insert(n2.into());

    let h = g.create_hyperedge(m).unwrap();
    g.attach_obj(h, obj.clone()).unwrap();

    let actual: Vec<_> = g.iter_entities().into_iter().collect();

    // 1. No id appears more than once — in particular,
    //    e1 and h, which sit in two maps each.
    let mut counts: HashMap<u128, usize> = HashMap::new();
    for id in &actual {
        *counts.entry(*id).or_insert(0) += 1;
    }
    assert_eq!(
        counts.get(&e1).copied(),
        Some(1),
        "e1 yielded {:?} times, expected 1",
        counts.get(&e1)
    );
    assert_eq!(
        counts.get(&h).copied(),
        Some(1),
        "h yielded {:?} times, expected 1",
        counts.get(&h)
    );

    // 2. Coverage: exactly the four distinct ids.
    let actual_set: HashSet<_> = actual.iter().copied().collect();
    let expected: HashSet<_> = [n1, n2, e1, h].into_iter().collect();
    assert_eq!(actual_set, expected);
}

#[test]
fn iter_edges1() {
    let (g, _n1, _n2, _n3, _n4, e1, e2, e3, e4, e5, _h) =
        create_sample_graph1();

    let actual: Vec<_> = g.iter_edges().into_iter().collect();

    // No duplicates (HashMap keys can't repeat, but we
    // assert anyway in case the impl changes).
    let mut counts: HashMap<u128, usize> = HashMap::new();
    for id in &actual {
        *counts.entry(*id).or_insert(0) += 1;
    }
    let duplicates: Vec<_> = counts
        .iter()
        .filter(|(_, c)| **c > 1)
        .map(|(e, c)| (*e, *c))
        .collect();
    if !duplicates.is_empty() {
        panic!("iter_edges returned duplicates: {:?}", duplicates);
    }

    // Exactly the five edges added (e1..e5). Nodes and
    // the hyperedge `h` must NOT appear.
    let actual_set: HashSet<_> = actual.iter().copied().collect();
    let expected: HashSet<_> = [e1, e2, e3, e4, e5].into_iter().collect();
    assert_eq!(actual_set, expected);
}

#[test]
fn lib_iter_nodes() {
    let (g, n1, n2, n3, n4, _e1, _e2, _e3, _e4, _e5, _h) =
        create_sample_graph1();

    let actual: Vec<_> = g.iter_nodes().into_iter().collect();

    // No duplicates — entities is a HashMap, but assert
    // anyway in case the impl chains in extra sources later.
    let mut counts: HashMap<u128, usize> = HashMap::new();
    for id in &actual {
        *counts.entry(*id).or_insert(0) += 1;
    }
    let duplicates: Vec<_> = counts
        .iter()
        .filter(|(_, c)| **c > 1)
        .map(|(e, c)| (*e, *c))
        .collect();
    if !duplicates.is_empty() {
        panic!("iter_nodes returned duplicates: {:?}", duplicates);
    }

    // Exactly the four node ids — edges (e1..e5) and the
    // hyperedge `h` must NOT appear.
    let actual_set: HashSet<_> = actual.iter().copied().collect();
    let expected: HashSet<_> = [n1, n2, n3, n4].into_iter().collect();
    assert_eq!(actual_set, expected);
}

#[test]
fn lib_test_iter_hyperedge() {
    let (g, _n1, _n2, _n3, _n4, _e1, _e2, _e3, _e4, _e5, h) =
        create_sample_graph1();

    let actual: Vec<_> = g.iter_hyperedges().into_iter().collect();

    // No duplicates — `hyperedges` is a HashMap, but
    // assert anyway in case the impl chains in extra
    // sources later.
    let mut counts: HashMap<u128, usize> = HashMap::new();
    for id in &actual {
        *counts.entry(*id).or_insert(0) += 1;
    }
    let duplicates: Vec<_> = counts
        .iter()
        .filter(|(_, c)| **c > 1)
        .map(|(e, c)| (*e, *c))
        .collect();
    if !duplicates.is_empty() {
        panic!("iter_hyperedges returned duplicates: {:?}", duplicates);
    }

    // Exactly the one hyperedge — nodes and edges must
    // NOT appear.
    let actual_set: HashSet<_> = actual.iter().copied().collect();
    let expected: HashSet<_> = [h].into_iter().collect();
    assert_eq!(actual_set, expected);
}

/// No attached objects yet — only nodes live in
/// `entities`, so `iter_attached` is empty.
#[test]
fn lib_empty_when_only_nodes() {
    let mut g = Graph::default();
    let obj = create_simple_obj("test_field");
    g.add_node(obj.clone());
    g.add_node(obj);
    assert_eq!(g.iter_attached().len(), 0);
}

/// Yields exactly the ids on which `attach_obj` placed an
/// object — both edges and hyperedges qualify.
#[test]
fn lib_yields_attach_targets() {
    let (mut g, _n1, _n2, _n3, _n4, e_a, _e_b, _meta_edge, _edge_to_h, h) =
        create_sample_graph2();
    let obj = create_simple_obj("attached");

    g.attach_obj(e_a, obj.clone()).unwrap();
    g.attach_obj(h, obj).unwrap();

    let actual: HashSet<_> = g.iter_attached().into_iter().collect();
    let expected: HashSet<_> = [e_a, h].into_iter().collect();
    assert_eq!(actual, expected);
}

/// Complement of `iter_nodes`: a node id, even if it has
/// an object, must NOT appear in `iter_attached`.
#[test]
fn lib_excludes_nodes() {
    let mut g = Graph::default();
    let obj = create_simple_obj("test_field");
    let n1 = g.add_node(obj);
    let actual: HashSet<_> = g.iter_attached().into_iter().collect();
    assert!(!actual.contains(&n1));
}

#[test]
fn lib_test_obj() {
    let (mut graph, n1, _n2, _n3, _n4, e_a, _e_b, meta_edge, edge_to_h, _h) =
        create_sample_graph2();

    let obj = create_simple_obj("attached");

    graph.attach_obj(e_a, obj.clone()).unwrap();
    graph.attach_obj(meta_edge, obj.clone()).unwrap();
    graph.attach_obj(edge_to_h, obj.clone()).unwrap();

    assert_eq!(graph.obj(&e_a), Some(&obj));
    assert_eq!(graph.obj(&meta_edge), Some(&obj));
    assert_eq!(graph.obj(&edge_to_h), Some(&obj));

    // n1 is a Node: its object came from `add_node`,
    // independent of any attach. It must still be there.
    assert!(graph.obj(&n1).is_some());
}

/// Unknown id resolves to `None`.
#[test]
fn lib_obj_unknown() {
    let g = Graph::default();
    assert!(g.obj(&Uuid::new_v4().as_u128()).is_none());
}

/// A bare edge (no `attach_obj` call) has no object.
#[test]
fn lib_obj_bare_edge_is_none() {
    let (g, _n1, _n2, _n3, _n4, e_a, _e_b, _meta_edge, _edge_to_h, _h) =
        create_sample_graph2();
    assert!(g.obj(&e_a).is_none());
}

/// A bare hyperedge has no object.
#[test]
fn lib_obj_bare_hyperedge_is_none() {
    let (g, _n1, _n2, _n3, _n4, _e_a, _e_b, _meta_edge, _edge_to_h, h) =
        create_sample_graph2();
    assert!(g.obj(&h).is_none());
}

/// Regular node-to-node edge round-trips through `edge`.
#[test]
fn lib_edge1() {
    let (graph, n1, n2, _n3, _n4, e_a, _e_b, _meta_edge, _edge_to_h, _h) =
        create_sample_graph2();

    let u = graph.edge(&e_a).unwrap();
    assert_eq!(
        u,
        EdgeView {
            id: e_a,
            source: n1.into(),
            target: n2.into()
        }
    )
}

/// Meta-edge: target is another edge — still in the
/// `edges` map, so `edge` returns its triplet.
#[test]
fn lib_edge2() {
    let (graph, n1, _n2, _n3, _n4, _e_a, e_b, meta_edge, _edge_to_h, _h) =
        create_sample_graph2();

    let u = graph.edge(&meta_edge).unwrap();
    assert_eq!(
        u,
        EdgeView {
            id: meta_edge,
            source: n1.into(),
            target: e_b.into(),
        }
    )
}

/// Edge whose target is a hyperedge — also lives in the
/// `edges` map.
#[test]
fn lib_edge3() {
    let (graph, n1, _n2, _n3, _n4, _e_a, _e_b, _meta_edge, edge_to_h, h) =
        create_sample_graph2();

    let u = graph.edge(&edge_to_h).unwrap();
    assert_eq!(
        u,
        EdgeView {
            id: edge_to_h,
            source: n1.into(),
            target: h.into(),
        }
    )
}

/// Self-loop is a valid edge.
#[test]
fn lib_edge4() {
    let mut g = Graph::default();
    let obj = create_simple_obj("test_field");
    let n1 = g.add_node(obj);
    let e1 = g.add_edge(n1.into(), n1.into()).unwrap();

    let u = g.edge(&e1).unwrap();
    assert_eq!(
        u,
        EdgeView {
            id: e1,
            source: n1.into(),
            target: n1.into(),
        }
    )
}

/// Endpoints can be sub-object paths; `edge` returns
/// them verbatim.
#[test]
fn lib_edge5() {
    let mut g = Graph::default();
    let obj = create_simple_obj("test_field");
    let n1 = g.add_node(obj.clone());
    let n2 = g.add_node(obj);

    let p1 = Pointee::Path(GlobalObjPath::new(n1, "test_field").unwrap());
    let p2 = Pointee::Path(GlobalObjPath::new(n2, "test_field").unwrap());
    let e1 = g.add_edge(p1.clone().into(), p2.clone().into()).unwrap();

    let u = g.edge(&e1).unwrap();
    assert_eq!(
        u,
        EdgeView {
            id: e1,
            source: p1,
            target: p2,
        }
    )
}

/// Unknown id → `NotFound`.
#[test]
fn lib_edge_not_found() {
    let g = Graph::default();
    let id = Uuid::new_v4().as_u128();
    let err = g.edge(&id).unwrap_err();
    assert!(matches!(
        err,
        GetEdgeError::NotFound(EntityNotFoundError { id: x }) if x == id
    ));
}

/// A node id is a known entity but not an edge →
/// `IncorrectType("Node")`.
#[test]
fn lib_edge_incorrect_type_node() {
    let mut g = Graph::default();
    let obj = create_simple_obj("test_field");
    let n1 = g.add_node(obj);

    let err = g.edge(&n1).unwrap_err();
    match err {
        GetEdgeError::IncorrectType(e) => {
            assert_eq!(e.entity_id, n1);
            assert_eq!(e.actual_type, "Node");
        }
        other => panic!("expected IncorrectType, got {other:?}"),
    }
}

/// A hyperedge id → `IncorrectType("HyperEdge")`.
#[test]
fn lib_edge_incorrect_type_hyperedge() {
    let (g, _n1, _n2, _n3, _n4, _e_a, _e_b, _meta_edge, _edge_to_h, h) =
        create_sample_graph2();

    let err = g.edge(&h).unwrap_err();
    match err {
        GetEdgeError::IncorrectType(e) => {
            assert_eq!(e.entity_id, h);
            assert_eq!(e.actual_type, "HyperEdge");
        }
        other => panic!("expected IncorrectType, got {other:?}"),
    }
}

/// An attached-object id (object placed on top of a
/// hyperedge) → `IncorrectType("AttachedObject")`. The
/// hyperedge map lookup wins over the edges map only
/// because attaching to a hyperedge keeps the id outside
/// `edges`.
#[test]
fn lib_edge_incorrect_type_attached() {
    let (mut g, _n1, _n2, _n3, _n4, _e_a, _e_b, _meta_edge, _edge_to_h, h) =
        create_sample_graph2();
    let obj = create_simple_obj("attached");
    g.attach_obj(h, obj).unwrap();

    let err = g.edge(&h).unwrap_err();
    match err {
        GetEdgeError::IncorrectType(e) => {
            assert_eq!(e.entity_id, h);
            assert_eq!(e.actual_type, "AttachedObject");
        }
        other => panic!("expected IncorrectType, got {other:?}"),
    }
}

#[test]
fn lib_hyperedge1() {
    let (graph, _n1, _n2, n3, n4, _e_a, _e_b, _meta_edge, _edge_to_h, h) =
        create_sample_graph2();

    let members = graph.hyperedge_members(&h).unwrap();
    let expected = set_of(vec![n3.into(), n4.into()]);
    assert_eq!(members, &expected);
}

/// Unknown id → None.
#[test]
fn lib_hyperedge_unknown() {
    let g = Graph::default();
    assert!(g.hyperedge_members(&Uuid::new_v4().as_u128()).is_none());
}

/// An edge id is not a hyperedge → None.
#[test]
fn lib_hyperedge_for_edge_id() {
    let (g, _n1, _n2, _n3, _n4, e_a, _e_b, _meta_edge, _edge_to_h, _h) =
        create_sample_graph2();
    assert!(g.hyperedge_members(&e_a).is_none());
}

/// Unknown id → None.
#[test]
fn lib_hyperedge_members_unknown() {
    let g = Graph::default();
    assert!(g.hyperedge_members(&Uuid::new_v4().as_u128()).is_none());
}

/// Unknown id resolves to `None`.
#[test]
fn lib_unknown_is_none() {
    let g = Graph::default();
    assert!(g.get_type(Uuid::new_v4().as_u128()).is_none());
}

/// Pure node — only in `entities`.
#[test]
fn lib_node() {
    let mut g = Graph::default();
    let obj = create_simple_obj("test_field");
    let n1 = g.add_node(obj);
    assert!(matches!(g.get_type(n1), Some(EntityType::Node)));
}

/// Regular edge — both endpoints are nodes.
#[test]
fn lib_edge() {
    let (g, _n1, _n2, _n3, _n4, e_a, _e_b, _meta_edge, _edge_to_h, _h) =
        create_sample_graph2();
    assert!(matches!(g.get_type(e_a), Some(EntityType::Edge)));
}

/// Edge whose endpoint is another edge → MetaEdge.
#[test]
fn lib_meta_edge_with_edge_endpoint() {
    let (g, _n1, _n2, _n3, _n4, _e_a, _e_b, meta_edge, _edge_to_h, _h) =
        create_sample_graph2();
    assert!(matches!(g.get_type(meta_edge), Some(EntityType::MetaEdge)));
}

/// Edge whose endpoint is a hyperedge → MetaEdge.
#[test]
fn lib_meta_edge_with_hyperedge_endpoint() {
    let (g, _n1, _n2, _n3, _n4, _e_a, _e_b, _meta_edge, edge_to_h, _h) =
        create_sample_graph2();
    assert!(matches!(g.get_type(edge_to_h), Some(EntityType::MetaEdge)));
}

/// Pure hyperedge — only in `hyper_edge`.
#[test]
fn lib_hyperedge() {
    let (g, _n1, _n2, _n3, _n4, _e_a, _e_b, _meta_edge, _edge_to_h, h) =
        create_sample_graph2();
    assert!(matches!(g.get_type(h), Some(EntityType::Hyperedge)));
}

/// Object attached on top of an edge — id collides
/// in both `entities` and `edges` → AttachedObject.
#[test]
fn lib_attached_on_edge() {
    let (mut g, _n1, _n2, _n3, _n4, e_a, _e_b, _meta_edge, _edge_to_h, _h) =
        create_sample_graph2();
    let obj = create_simple_obj("attached");
    g.attach_obj(e_a, obj).unwrap();
    assert!(matches!(g.get_type(e_a), Some(EntityType::AttachedObject)));
}

/// Object attached on top of a hyperedge — id
/// collides in both `entities` and `hyper_edge` →
/// AttachedObject.
#[test]
fn lib_attached_on_hyperedge() {
    let (mut g, _n1, _n2, _n3, _n4, _e_a, _e_b, _meta_edge, _edge_to_h, h) =
        create_sample_graph2();
    let obj = create_simple_obj("attached");
    g.attach_obj(h, obj).unwrap();
    assert!(matches!(g.get_type(h), Some(EntityType::AttachedObject)));
}

/// `Pointee::Path` endpoint must NOT promote an edge
/// to MetaEdge — only edge/hyperedge endpoints do.
#[test]
fn lib_path_endpoint_stays_edge() {
    let mut g = Graph::default();
    let obj = create_simple_obj("test_field");
    let n1 = g.add_node(obj.clone());
    let n2 = g.add_node(obj);

    let p1 = Pointee::Path(GlobalObjPath::new(n1, "test_field").unwrap());
    let e1 = g.add_edge(p1.into(), n2.into()).unwrap();
    assert!(matches!(g.get_type(e1), Some(EntityType::Edge)));
}

#[test]
fn lib_entity_node() {
    let mut g = Graph::default();
    let obj = create_simple_obj("test_field");
    let n1 = g.add_node(obj);
    assert_eq!(g.classify_pointee(&n1.into()), Some(PointeeKind::Node));
}

#[test]
fn lib_entity_edge() {
    let (g, _n1, _n2, _n3, _n4, e_a, _e_b, _meta_edge, _edge_to_h, _h) =
        create_sample_graph2();
    assert_eq!(g.classify_pointee(&e_a.into()), Some(PointeeKind::Edge));
}

#[test]
fn lib_entity_hyperedge() {
    let (g, _n1, _n2, _n3, _n4, _e_a, _e_b, _meta_edge, _edge_to_h, h) =
        create_sample_graph2();
    assert_eq!(g.classify_pointee(&h.into()), Some(PointeeKind::Hyperedge));
}

#[test]
fn lib_entity_meta_edge() {
    let (g, _n1, _n2, _n3, _n4, _e_a, _e_b, meta_edge, _edge_to_h, _h) =
        create_sample_graph2();
    assert_eq!(
        g.classify_pointee(&meta_edge.into()),
        Some(PointeeKind::MetaEdge)
    );
}

#[test]
fn lib_entity_attached() {
    let (mut g, _n1, _n2, _n3, _n4, e_a, _e_b, _meta_edge, _edge_to_h, _h) =
        create_sample_graph2();
    let obj = create_simple_obj("attached");
    g.attach_obj(e_a, obj).unwrap();
    assert_eq!(
        g.classify_pointee(&e_a.into()),
        Some(PointeeKind::AttachedObject)
    );
}

#[test]
fn lib_entity_unknown() {
    let g = Graph::default();
    let unknown: Pointee = Uuid::new_v4().as_u128().into();
    assert_eq!(g.classify_pointee(&unknown), None);
}

/// Path that resolves to a real field → Subobject.
#[test]
fn lib_path_resolves() {
    let mut g = Graph::default();
    let obj = create_simple_obj("test_field");
    let n1 = g.add_node(obj);
    let p = Pointee::Path(GlobalObjPath::new(n1, "test_field").unwrap());
    assert_eq!(g.classify_pointee(&p), Some(PointeeKind::Subobject));
}

/// Path whose entity isn't in the graph → None.
#[test]
fn lib_path_unknown_entity() {
    let g = Graph::default();
    let p = Pointee::Path(GlobalObjPath::new(Uuid::new_v4().as_u128(), "x").unwrap());
    assert_eq!(g.classify_pointee(&p), None);
}

/// Path whose entity exists but the field is missing
/// → None.
#[test]
fn lib_path_missing_field() {
    let mut g = Graph::default();
    let obj = create_simple_obj("test_field");
    let n1 = g.add_node(obj);
    let p = Pointee::Path(GlobalObjPath::new(n1, "no_such_field").unwrap());
    assert_eq!(g.classify_pointee(&p), None);
}

#[test]
fn test_is_exist1() {
    let mut g = Graph::default();
    let obj = create_simple_obj("test_field");
    let n1 = g.add_node(obj.clone());
    assert!(g.is_exist(&n1))
}

#[test]
fn test_is_exist2() {
    let mut g = Graph::default();
    let obj = create_simple_obj("test_field");
    let n1 = g.add_node(obj.clone());
    let n2 = g.add_node(obj);
    let e1 = g.add_edge(n1.into(), n2.into()).unwrap();
    assert!(g.is_exist(&e1))
}

#[test]
fn test_is_exist3() {
    let mut g = Graph::default();
    let obj = create_simple_obj("test_field");
    let n1 = g.add_node(obj.clone());
    let n2 = g.add_node(obj);
    let mut m = PointeeSet::new();
    m.insert(n1.into());
    m.insert(n2.into());
    let h = g.create_hyperedge(m).unwrap();
    assert!(g.is_exist(&h))
}

/// Meta-edge: an edge whose endpoint is another edge.
#[test]
fn test_is_exist4() {
    let mut g = Graph::default();
    let obj = create_simple_obj("test_field");
    let n1 = g.add_node(obj.clone());
    let n2 = g.add_node(obj);
    let e1 = g.add_edge(n1.into(), n2.into()).unwrap();
    let meta_edge = g.add_edge(n1.into(), e1.into()).unwrap();
    assert!(g.is_exist(&meta_edge))
}

#[test]
fn lib_is_pointee_exist_entity_node() {
    let mut g = Graph::default();
    let obj = create_simple_obj("test_field");
    let n1 = g.add_node(obj);
    assert!(g.is_pointee_exist(&n1.into()));
}

#[test]
fn lib_is_pointee_exist_entity_edge() {
    let (g, _n1, _n2, _n3, _n4, e_a, _e_b, _meta_edge, _edge_to_h, _h) =
        create_sample_graph2();
    assert!(g.is_pointee_exist(&e_a.into()));
}

#[test]
fn lib_is_pointee_exist_entity_hyperedge() {
    let (g, _n1, _n2, _n3, _n4, _e_a, _e_b, _meta_edge, _edge_to_h, h) =
        create_sample_graph2();
    assert!(g.is_pointee_exist(&h.into()));
}

#[test]
fn lib_is_pointee_exist_entity_meta_edge() {
    let (g, _n1, _n2, _n3, _n4, _e_a, _e_b, meta_edge, _edge_to_h, _h) =
        create_sample_graph2();
    assert!(g.is_pointee_exist(&meta_edge.into()));
}

#[test]
fn lib_is_pointee_exist_entity_attached() {
    let (mut g, _n1, _n2, _n3, _n4, e_a, _e_b, _meta_edge, _edge_to_h, _h) =
        create_sample_graph2();
    let obj = create_simple_obj("attached");
    g.attach_obj(e_a, obj).unwrap();
    assert!(g.is_pointee_exist(&e_a.into()));
}

#[test]
fn lib_is_pointee_exist_entity_unknown() {
    let g = Graph::default();
    let unknown: Pointee = Uuid::new_v4().as_u128().into();
    assert!(!g.is_pointee_exist(&unknown));
}

/// Path resolves to a real top-level field.
#[test]
fn lib_is_pointee_exist_path_resolves() {
    let mut g = Graph::default();
    let obj = create_simple_obj("test_field");
    let n1 = g.add_node(obj);
    let p = Pointee::Path(GlobalObjPath::new(n1, "test_field").unwrap());
    assert!(g.is_pointee_exist(&p));
}

/// Path descends through a nested `Field::Object`.
#[test]
fn lib_path_resolves_nested() {
    let mut g = Graph::default();
    let mut inner = Object::new();
    inner.insert("leaf".into(), Field::Null);
    let mut obj = Object::new();
    obj.insert("nested".into(), Field::Object(inner));
    let n1 = g.add_node(obj);

    let mut path = GlobalObjPath::new(n1, "nested").unwrap();
    path.push("leaf").unwrap();
    let p = Pointee::Path(path);
    assert!(g.is_pointee_exist(&p));
}

/// Entity isn't in the graph.
#[test]
fn lib_is_pointee_exist_path_unknown_entity() {
    let g = Graph::default();
    let p = Pointee::Path(GlobalObjPath::new(Uuid::new_v4().as_u128(), "x").unwrap());
    assert!(!g.is_pointee_exist(&p));
}

/// Entity exists but the first segment doesn't match
/// any top-level field.
#[test]
fn lib_is_pointee_exist_path_missing_field() {
    let mut g = Graph::default();
    let obj = create_simple_obj("test_field");
    let n1 = g.add_node(obj);
    let p = Pointee::Path(GlobalObjPath::new(n1, "no_such_field").unwrap());
    assert!(!g.is_pointee_exist(&p));
}

/// Walking a path through a non-Object field
/// (e.g. `Field::Null`) must fail.
#[test]
fn lib_path_through_non_object_fails() {
    let mut g = Graph::default();
    // "test_field" is a Field::Null — it is not an
    // Object, so any further descent must fail.
    let obj = create_simple_obj("test_field");
    let n1 = g.add_node(obj);

    let mut path = GlobalObjPath::new(n1, "test_field").unwrap();
    path.push("anything").unwrap();
    let p = Pointee::Path(path);
    assert!(!g.is_pointee_exist(&p));
}

/// Edge id with a sub-path doesn't navigate — only
/// `entities` is consulted, and a bare edge has no
/// attached object.
#[test]
fn lib_path_on_bare_edge_fails() {
    let (g, _n1, _n2, _n3, _n4, e_a, _e_b, _meta_edge, _edge_to_h, _h) =
        create_sample_graph2();
    let p = Pointee::Path(GlobalObjPath::new(e_a, "x").unwrap());
    assert!(!g.is_pointee_exist(&p));
}

/// Create a hyperedge with two members and verify
/// both id presence and members round-trip.
#[test]
fn create_hyperedge1() {
    let mut g = Graph::default();
    let obj = create_simple_obj("test_field");
    let n1 = g.add_node(obj.clone());
    let n2 = g.add_node(obj);

    let mut members = PointeeSet::new();
    members.insert(n1.into());
    members.insert(n2.into());

    let h = g.create_hyperedge(members.clone()).unwrap();
    assert!(g.is_exist(&h));
    assert_eq!(g.hyperedge_members(&h), Some(&members));
}

/// An empty member set is rejected — every hyperedge
/// must have at least one member.
#[test]
fn lib_create_hyperedge_empty_rejected() {
    let mut g = Graph::default();
    let err = g.create_hyperedge(PointeeSet::new()).unwrap_err();
    assert_eq!(err, CreateHyperedgeError::EmptyHyperedge);
}

/// Members may include other hyperedges (nesting) and
/// edge ids — `create_hyperedge` doesn't validate
/// membership shape.
#[test]
fn lib_create_hyperedge_with_edge_and_hyperedge_members() {
    let (mut g, _n1, _n2, _n3, _n4, e_a, _e_b, _meta_edge, _edge_to_h, h) =
        create_sample_graph2();

    let mut members = PointeeSet::new();
    members.insert(e_a.into());
    members.insert(h.into());

    let h2 = g.create_hyperedge(members.clone()).unwrap();
    assert_eq!(g.hyperedge_members(&h2), Some(&members));
}

/// Creating a hyperedge under an existing hyperedge id is rejected.
#[test]
fn lib_create_hyperedge_already_exists() {
    let mut g = Graph::default();
    let n1 = g.add_node(create_simple_obj("f"));
    let mut members = PointeeSet::new();
    members.insert(n1.into());
    let h = g.create_hyperedge(members.clone()).unwrap();
    let err = g
        .apply_patch(vec![Patch::CreateHyperedge { id: h, members }])
        .unwrap_err();
    assert_eq!(
        err,
        ApplyPatchError::CreateHyperedge(CreateHyperedgeError::HyperedgeAlreadyExists(HyperedgeAlreadyExistsError {
            id: h
        }))
    );
}

/// Re-inserting with the same id must NOT clobber the
/// existing members — the first hyperedge stays
/// intact.
#[test]
fn lib_create_hyperedge_already_exists_preserves_members() {
    let mut g = Graph::default();
    let obj = create_simple_obj("test_field");
    let n1 = g.add_node(obj.clone());
    let n2 = g.add_node(obj);

    let mut first = PointeeSet::new();
    first.insert(n1.into());
    let h = g.create_hyperedge(first.clone()).unwrap();

    // Try to overwrite with a different (non-empty) member set.
    let mut other = PointeeSet::new();
    other.insert(n2.into());
    let _ = g.apply_patch(vec![Patch::CreateHyperedge { id: h, members: other }]);

    assert_eq!(g.hyperedge_members(&h), Some(&first));
}

/// Adding a node returns an id and the object can be looked up.
#[test]
fn test_add_node1() {
    let mut graph = Graph::default();
    let obj = create_simple_obj("test_field");
    let node_id = graph.add_node(obj.clone());
    assert_eq!(graph.obj(&node_id), Some(&obj));
}

/// Re-inserting under the same id is rejected and the
/// first object stays untouched.
#[test]
fn test_add_node2() {
    let mut graph = Graph::default();
    let obj = create_simple_obj("test_field");
    let n1 = graph.add_node(obj.clone());
    let obj2 = create_simple_obj("test_field2");
    let result2 = graph.apply_patch(vec![Patch::AddNode { id: n1, obj: obj2.clone() }]);
    assert_eq!(
        result2.unwrap_err(),
        ApplyPatchError::NodeAlreadyExists(NodeAlreadyExistsError { id: n1 })
    );
    // Check thats change doesnt apply
    assert_eq!(graph.obj(&n1), Some(&obj))
}

/// Adding a basic edge stores its (source, target) pair.
#[test]
fn test_add_edge1() {
    let mut g = Graph::default();
    let obj = create_simple_obj("test_field");
    let n1 = g.add_node(obj.clone());
    let n2 = g.add_node(obj);

    let e1 = g.add_edge(n1.into(), n2.into()).unwrap();
    assert_eq!(
        g.edge(&e1).unwrap(),
        EdgeView {
            id: e1,
            source: Pointee::EntityId(n1),
            target: Pointee::EntityId(n2),
        }
    )
}

/// Self-loop: an edge with both endpoints equal is allowed.
#[test]
fn test_add_edge2() {
    let mut g = Graph::default();
    let obj = create_simple_obj("test_field");
    let n1 = g.add_node(obj.clone());

    let e1 = g.add_edge(n1.into(), n1.into()).unwrap();
    assert_eq!(
        g.edge(&e1).unwrap(),
        EdgeView {
            id: e1,
            source: Pointee::EntityId(n1),
            target: Pointee::EntityId(n1),
        }
    )
}

/// Both endpoints unresolved → MissingEndpoints with both ids.
#[test]
fn test_add_edge3() {
    let mut g = Graph::default();
    let n1 = Uuid::new_v4().as_u128();
    let n2 = Uuid::new_v4().as_u128();

    let err = g.add_edge(n1.into(), n2.into()).unwrap_err();
    assert_eq!(
        err,
        AddEdgeError::MissingEndpoints(MissingEndpointsError {
            missing_endpoints: vec![Pointee::EntityId(n1), Pointee::EntityId(n2)],
        })
    )
}

/// Re-inserting an edge under the same id is rejected.
#[test]
fn test_add_edge4() {
    let mut g = Graph::default();
    let obj = create_simple_obj("test_field");
    let n1 = g.add_node(obj.clone());
    let n2 = g.add_node(obj);

    let e1 = g.add_edge(n1.into(), n2.into()).unwrap();
    let err = g
        .apply_patch(vec![Patch::AddEdge { id: e1, source: n1.into(), target: n2.into() }])
        .unwrap_err();
    assert_eq!(
        err,
        ApplyPatchError::AddEdge(AddEdgeError::EdgeAlreadyExists(EdgeAlreadyExistsError { id: e1 }))
    )
}

/// `remove_node` rejects an unknown id.
#[test]
fn lib_unknown_id() {
    let mut g = Graph::default();
    let err = g.remove_node(&Uuid::new_v4().as_u128()).unwrap_err();
    assert!(matches!(err, NodeNotFoundError { .. }));
}

/// Removing a node returns its attached object as Field::Object.
#[test]
fn lib_returns_object() {
    let mut g = Graph::default();
    let obj = create_simple_obj("f");
    let n1 = g.add_node(obj.clone());
    let returned = g.remove_node(&n1).unwrap();
    assert_eq!(returned, Field::Object(obj));
    assert!(!g.is_exist(&n1));
    assert_well_formed(&g);
}

/// Removing `n1` cascades to `e: n1 → n2`.
/// `n2` survives and nothing refers to it any more.
#[test]
fn lib_cascades_direct_edge_reference() {
    let mut g = Graph::default();
    let obj = create_simple_obj("f");
    let n1 = g.add_node(obj.clone());
    let n2 = g.add_node(obj);
    let e = g.add_edge(n1.into(), n2.into()).unwrap();

    g.remove_node(&n1).unwrap();

    assert!(!g.is_exist(&n1));
    assert!(!g.edge(&e).is_ok());
    assert!(g.is_exist(&n2));
    assert_well_formed(&g);
}

/// Removing `n2` cascades to `e: n1 → n2/field` (Path-pointee).
/// No path into `n2`'s object is left.
#[test]
fn lib_cascades_path_reference() {
    let mut g = Graph::default();
    let obj = create_simple_obj("test_field");
    let n1 = g.add_node(obj.clone());
    let n2 = g.add_node(obj);

    let path = Pointee::Path(GlobalObjPath::new(n2, "test_field").unwrap());
    let e = g.add_edge(n1.into(), path.clone().into()).unwrap();

    g.remove_node(&n2).unwrap();

    assert!(!g.is_exist(&n2));
    assert!(!g.edge(&e).is_ok());
    assert!(g.is_exist(&n1));
    assert_eq!(paths_through(&g, n2), 0);
    assert_well_formed(&g);
}

/// Self-loop `e: n1 → n1`: nothing refers to `n1` after its removal.
#[test]
fn lib_cascades_self_loop() {
    let mut g = Graph::default();
    let obj = create_simple_obj("f");
    let n1 = g.add_node(obj);
    let e = g.add_edge(n1.into(), n1.into()).unwrap();

    g.remove_node(&n1).unwrap();

    assert!(!g.edge(&e).is_ok());
    assert!(g.iter_edges().is_empty());
    assert!(g.iter_hyperedges().is_empty());
    assert_well_formed(&g);
}

/// Chain: `e1: n1 → n2`, `e2: n3 → e1`. Removing `n1` must
/// cascade to `e1` and then to `e2` (since `e1` is `e2`'s target).
#[test]
fn lib_cascades_through_meta_edge() {
    let mut g = Graph::default();
    let obj = create_simple_obj("f");
    let n1 = g.add_node(obj.clone());
    let n2 = g.add_node(obj.clone());
    let n3 = g.add_node(obj);

    let e1 = g.add_edge(n1.into(), n2.into()).unwrap();
    let e2 = g.add_edge(n3.into(), e1.into()).unwrap();

    g.remove_node(&n1).unwrap();

    assert!(!g.edge(&e1).is_ok());
    assert!(!g.edge(&e2).is_ok());
    assert!(g.is_exist(&n2));
    assert!(g.is_exist(&n3));
    assert_well_formed(&g);
}

/// Hyperedge with two members loses one — survives with the other.
#[test]
fn lib_hyperedge_loses_member_but_survives() {
    let mut g = Graph::default();
    let obj = create_simple_obj("f");
    let n1 = g.add_node(obj.clone());
    let n2 = g.add_node(obj);

    let mut m = PointeeSet::new();
    m.insert(n1.into());
    m.insert(n2.into());
    let h = g.create_hyperedge(m).unwrap();

    g.remove_node(&n1).unwrap();

    let mut expected = PointeeSet::new();
    expected.insert(n2.into());
    assert_eq!(g.hyperedge_members(&h), Some(&expected));
    assert_well_formed(&g);
}

/// Hyperedge with the only member `n1` becomes empty when `n1` dies
/// and is itself cascade-removed.
#[test]
fn lib_hyperedge_empties_and_dies() {
    let mut g = Graph::default();
    let obj = create_simple_obj("f");
    let n1 = g.add_node(obj);

    let mut m = PointeeSet::new();
    m.insert(n1.into());
    let h = g.create_hyperedge(m).unwrap();

    g.remove_node(&n1).unwrap();

    assert!(!g.hyperedge_members(&h).is_some());
    assert_well_formed(&g);
}

/// Cascade reaches edges that pointed at a hyperedge that
/// itself died from emptying.
#[test]
fn lib_cascade_through_dead_hyperedge() {
    let mut g = Graph::default();
    let obj = create_simple_obj("f");
    let n1 = g.add_node(obj.clone());
    let n2 = g.add_node(obj);

    let mut m = PointeeSet::new();
    m.insert(n1.into());
    let h = g.create_hyperedge(m).unwrap();
    // edge from n2 to the soon-to-die hyperedge
    let e = g.add_edge(n2.into(), h.into()).unwrap();

    g.remove_node(&n1).unwrap();

    assert!(!g.hyperedge_members(&h).is_some());
    assert!(!g.edge(&e).is_ok());
    assert!(g.is_exist(&n2));
    assert_well_formed(&g);
}

/// `remove_node` rejects ids that live in `entities` because of
/// `attach_obj` on an edge — those are NOT nodes.
#[test]
fn lib_rejects_attached_object_id() {
    let mut g = Graph::default();
    let obj = create_simple_obj("f");
    let n1 = g.add_node(obj.clone());
    let n2 = g.add_node(obj.clone());
    let e = g.add_edge(n1.into(), n2.into()).unwrap();
    g.attach_obj(e, obj).unwrap();

    let err = g.remove_node(&e).unwrap_err();
    assert!(matches!(err, NodeNotFoundError { .. }));
    // Edge itself untouched.
    assert!(g.edge(&e).is_ok());
    assert_well_formed(&g);
}

/// Records exactly one `Patch::RemoveNode` even on a cascade.
#[test]
fn lib_records_single_patch_on_cascade() {
    let mut g = Graph::default();
    let obj = create_simple_obj("f");
    let n1 = g.add_node(obj.clone());
    let n2 = g.add_node(obj);
    let _e = g.add_edge(n1.into(), n2.into()).unwrap();

    g.remove_node(&n1).unwrap();

    let last = g.events().last().unwrap();
    assert_eq!(*last, Patch::RemoveNode { id: n1 });
    let remove_count = g
        .events()
        .iter()
        .filter(|p| matches!(p, Patch::RemoveNode { .. }))
        .count();
    assert_eq!(remove_count, 1);
}

/// Removing an unknown id returns an error.
#[test]
fn lib_remove_hyperedge_unknown_id() {
    let mut g = Graph::default();
    let err = g.remove_hyperedge(&Uuid::new_v4().as_u128()).unwrap_err();
    assert!(matches!(err, HyperedgeNotFoundError { .. }));
}

/// Plain remove: hyperedge gone, members survive without
/// `hid` in their `hyperedges` set.
#[test]
fn lib_removes_and_unregisters_members() {
    let mut g = Graph::default();
    let obj = create_simple_obj("f");
    let n1 = g.add_node(obj.clone());
    let n2 = g.add_node(obj);

    let mut m = PointeeSet::new();
    m.insert(n1.into());
    m.insert(n2.into());
    let h = g.create_hyperedge(m.clone()).unwrap();

    let returned = g.remove_hyperedge(&h).unwrap();

    assert_eq!(returned, m);
    assert!(!g.hyperedge_members(&h).is_some());
    assert!(g.is_exist(&n1));
    assert!(g.is_exist(&n2));
    assert_well_formed(&g);
}

/// Edges that pointed at the hyperedge cascade away.
#[test]
fn lib_cascades_to_referencing_edges() {
    let mut g = Graph::default();
    let obj = create_simple_obj("f");
    let n1 = g.add_node(obj.clone());
    let n2 = g.add_node(obj);

    let mut m = PointeeSet::new();
    m.insert(n1.into());
    let h = g.create_hyperedge(m).unwrap();
    let e = g.add_edge(n2.into(), h.into()).unwrap();

    g.remove_hyperedge(&h).unwrap();

    assert!(!g.hyperedge_members(&h).is_some());
    assert!(!g.edge(&e).is_ok());
    assert!(g.is_exist(&n2));
    assert_well_formed(&g);
}

/// Removing a hyperedge that's a member of another hyperedge:
/// the parent loses this member; if parent becomes empty, it
/// dies too.
#[test]
fn lib_cascades_to_parent_hyperedge_when_emptied() {
    let mut g = Graph::default();
    let obj = create_simple_obj("f");
    let n1 = g.add_node(obj);

    let mut inner_m = PointeeSet::new();
    inner_m.insert(n1.into());
    let inner = g.create_hyperedge(inner_m).unwrap();

    let mut outer_m = PointeeSet::new();
    outer_m.insert(inner.into());
    let outer = g.create_hyperedge(outer_m).unwrap();

    g.remove_hyperedge(&inner).unwrap();

    assert!(!g.hyperedge_members(&inner).is_some());
    assert!(!g.hyperedge_members(&outer).is_some());
    assert_well_formed(&g);
}

/// Parent hyperedge with multiple members loses one — survives.
#[test]
fn lib_parent_hyperedge_loses_only_this_member() {
    let mut g = Graph::default();
    let obj = create_simple_obj("f");
    let n1 = g.add_node(obj.clone());
    let n2 = g.add_node(obj);

    let mut inner_m = PointeeSet::new();
    inner_m.insert(n1.into());
    let inner = g.create_hyperedge(inner_m).unwrap();

    let mut outer_m = PointeeSet::new();
    outer_m.insert(inner.into());
    outer_m.insert(n2.into());
    let outer = g.create_hyperedge(outer_m).unwrap();

    g.remove_hyperedge(&inner).unwrap();

    let mut expected = PointeeSet::new();
    expected.insert(n2.into());
    assert_eq!(g.hyperedge_members(&outer), Some(&expected));
    assert_well_formed(&g);
}

/// Attached object on the hyperedge is dropped along with it.
#[test]
fn lib_drops_attached_object() {
    let mut g = Graph::default();
    let obj = create_simple_obj("f");
    let n1 = g.add_node(obj.clone());

    let mut m = PointeeSet::new();
    m.insert(n1.into());
    let h = g.create_hyperedge(m).unwrap();
    g.attach_obj(h, obj).unwrap();
    assert!(g.obj(&h).is_some());

    g.remove_hyperedge(&h).unwrap();

    assert!(!g.obj(&h).is_some());
    assert_well_formed(&g);
}

/// Records exactly one `Patch::RemoveHyperedge` even on a cascade.
#[test]
fn lib_remove_hyperedge_records_single_patch_on_cascade() {
    let mut g = Graph::default();
    let obj = create_simple_obj("f");
    let n1 = g.add_node(obj.clone());
    let n2 = g.add_node(obj);

    let mut m = PointeeSet::new();
    m.insert(n1.into());
    let h = g.create_hyperedge(m).unwrap();
    let _e = g.add_edge(n2.into(), h.into()).unwrap();

    g.remove_hyperedge(&h).unwrap();

    let last = g.events().last().unwrap();
    assert_eq!(*last, Patch::RemoveHyperedge { id: h });
    let count = g
        .events()
        .iter()
        .filter(|p| matches!(p, Patch::RemoveHyperedge { .. }))
        .count();
    assert_eq!(count, 1);
}

/// Unknown id — neither node nor attach target.
#[test]
fn lib_remove_attached_unknown_id() {
    let mut g = Graph::default();
    let err = g.remove_attached(Uuid::new_v4().as_u128()).unwrap_err();
    assert!(matches!(err, NoAttachedObjectError { .. }));
}

/// A bare node has no attached object — removal must fail
/// rather than silently delete the node.
#[test]
fn lib_rejects_node_id() {
    let mut g = Graph::default();
    let n1 = g.add_node(create_simple_obj("f"));

    let err = g.remove_attached(n1).unwrap_err();
    assert!(matches!(err, NoAttachedObjectError { .. }));
    assert!(g.is_exist(&n1));
    assert!(g.obj(&n1).is_some());
}

/// A bare edge (no attach_obj called) — nothing to remove.
#[test]
fn lib_rejects_bare_edge() {
    let mut g = Graph::default();
    let obj = create_simple_obj("f");
    let n1 = g.add_node(obj.clone());
    let n2 = g.add_node(obj);
    let e = g.add_edge(n1.into(), n2.into()).unwrap();

    let err = g.remove_attached(e).unwrap_err();
    assert!(matches!(err, NoAttachedObjectError { .. }));
    assert!(g.edge(&e).is_ok());
}

/// Attached object on an edge: edge stays alive, attached
/// object gone, RemoveEdgeData patch recorded.
#[test]
fn lib_removes_edge_attached() {
    let mut g = Graph::default();
    let obj = create_simple_obj("f");
    let n1 = g.add_node(obj.clone());
    let n2 = g.add_node(obj.clone());
    let e = g.add_edge(n1.into(), n2.into()).unwrap();
    g.attach_obj(e, obj).unwrap();

    g.remove_attached(e).unwrap();

    assert!(g.edge(&e).is_ok());
    assert!(!g.obj(&e).is_some());
    assert_eq!(*g.events().last().unwrap(), Patch::RemoveEdgeData { id: e });
    assert_well_formed(&g);
}

/// Attached object on a hyperedge: hyperedge stays alive,
/// attached object gone, RemoveHyperedgeData patch recorded.
#[test]
fn lib_removes_hyperedge_attached() {
    let mut g = Graph::default();
    let obj = create_simple_obj("f");
    let n1 = g.add_node(obj.clone());

    let mut m = PointeeSet::new();
    m.insert(n1.into());
    let h = g.create_hyperedge(m).unwrap();
    g.attach_obj(h, obj).unwrap();

    g.remove_attached(h).unwrap();

    assert!(g.hyperedge_members(&h).is_some());
    assert!(!g.obj(&h).is_some());
    assert_eq!(
        *g.events().last().unwrap(),
        Patch::RemoveHyperedgeData { id: h }
    );
    assert_well_formed(&g);
}

/// EntityId references survive — only Path references die.
#[test]
fn lib_entity_id_references_survive() {
    let mut g = Graph::default();
    let obj = create_simple_obj("f");
    let n1 = g.add_node(obj.clone());
    let n2 = g.add_node(obj.clone());
    let e = g.add_edge(n1.into(), n2.into()).unwrap();
    g.attach_obj(e, obj).unwrap();

    // Edge that points at `e` as a whole entity.
    let n3 = g.add_node(create_simple_obj("g"));
    let meta = g.add_edge(n3.into(), e.into()).unwrap();

    g.remove_attached(e).unwrap();

    assert!(g.edge(&e).is_ok());
    assert!(g.edge(&meta).is_ok());
    assert_well_formed(&g);
}

/// Path references through the attach target die.
#[test]
fn lib_cascades_path_references() {
    let mut g = Graph::default();
    let obj = create_simple_obj("f");
    let n1 = g.add_node(obj.clone());
    let n2 = g.add_node(obj.clone());
    let e = g.add_edge(n1.into(), n2.into()).unwrap();
    let attached = create_simple_obj("data");
    g.attach_obj(e, attached).unwrap();

    // Edge whose endpoint is a path through `e`'s attached object.
    let n3 = g.add_node(create_simple_obj("g"));
    let path = Pointee::Path(GlobalObjPath::new(e, "data").unwrap());
    let dangling = g.add_edge(n3.into(), path.into()).unwrap();

    g.remove_attached(e).unwrap();

    assert!(g.edge(&e).is_ok());
    assert!(!g.edge(&dangling).is_ok());
    assert_eq!(paths_through(&g, e), 0);
    assert_well_formed(&g);
}

/// Records exactly one data-removal patch even when the
/// path-cascade kills downstream structures.
#[test]
fn lib_remove_attached_records_single_patch_on_cascade() {
    let mut g = Graph::default();
    let obj = create_simple_obj("f");
    let n1 = g.add_node(obj.clone());
    let n2 = g.add_node(obj.clone());
    let e = g.add_edge(n1.into(), n2.into()).unwrap();
    g.attach_obj(e, create_simple_obj("data"))
        .unwrap();

    let n3 = g.add_node(obj);
    let path = Pointee::Path(GlobalObjPath::new(e, "data").unwrap());
    let _dangling = g.add_edge(n3.into(), path.into()).unwrap();

    g.remove_attached(e).unwrap();

    let count = g
        .events()
        .iter()
        .filter(|p| {
            matches!(
                p,
                Patch::RemoveEdgeData { .. } | Patch::RemoveHyperedgeData { .. }
            )
        })
        .count();
    assert_eq!(count, 1);
}

/// Unknown hyperedge id is rejected.
#[test]
fn lib_unknown_hyperedge() {
    let mut g = Graph::default();
    let n1 = g.add_node(create_simple_obj("f"));
    let mut m = PointeeSet::new();
    m.insert(n1.into());
    let err = g.add_hyperedge_members(Uuid::new_v4().as_u128(), m).unwrap_err();
    assert!(matches!(err, AddHyperedgeMembersError::HyperedgeNotFound(_)));
}

/// Members that don't exist as pointees are rejected.
#[test]
fn lib_missing_pointee() {
    let mut g = Graph::default();
    let n1 = g.add_node(create_simple_obj("f"));
    let mut first = PointeeSet::new();
    first.insert(n1.into());
    let h = g.create_hyperedge(first).unwrap();

    let mut m = PointeeSet::new();
    m.insert(Pointee::EntityId(Uuid::new_v4().as_u128()));
    let err = g.add_hyperedge_members(h, m).unwrap_err();
    assert!(matches!(err, AddHyperedgeMembersError::PointeesNotFound(_)));
}

/// Adding a member that's already there is rejected,
/// and nothing is partially applied.
#[test]
fn lib_duplicate_member_rejected_atomically() {
    let mut g = Graph::default();
    let obj = create_simple_obj("f");
    let n1 = g.add_node(obj.clone());
    let n2 = g.add_node(obj);

    let mut first = PointeeSet::new();
    first.insert(n1.into());
    let h = g.create_hyperedge(first.clone()).unwrap();

    let mut m = PointeeSet::new();
    m.insert(n1.into()); // duplicate
    m.insert(n2.into()); // would-be new
    let err = g.add_hyperedge_members(h, m).unwrap_err();
    assert!(matches!(err, AddHyperedgeMembersError::MembersAlreadyExist(_)));

    // Atomicity: n2 was NOT added.
    assert_eq!(g.hyperedge_members(&h), Some(&first));
    assert_well_formed(&g);
}

/// Successful add: members extended, the graph stays well formed,
/// patch recorded.
#[test]
fn lib_adds_members_and_records_patch() {
    let mut g = Graph::default();
    let obj = create_simple_obj("f");
    let n1 = g.add_node(obj.clone());
    let n2 = g.add_node(obj.clone());
    let n3 = g.add_node(obj);

    let mut first = PointeeSet::new();
    first.insert(n1.into());
    let h = g.create_hyperedge(first).unwrap();

    let mut to_add = PointeeSet::new();
    to_add.insert(n2.into());
    to_add.insert(n3.into());
    g.add_hyperedge_members(h, to_add.clone()).unwrap();

    let mut expected = PointeeSet::new();
    expected.insert(n1.into());
    expected.insert(n2.into());
    expected.insert(n3.into());
    assert_eq!(g.hyperedge_members(&h), Some(&expected));

    assert_eq!(
        *g.events().last().unwrap(),
        Patch::AddHyperedgeMembers {
            id: h,
            members: to_add,
        }
    );
    assert_well_formed(&g);
}

/// A path into an object can be added as a member.
#[test]
fn lib_tracks_path_member() {
    let mut g = Graph::default();
    let obj = create_simple_obj("test_field");
    let n1 = g.add_node(obj.clone());
    let n2 = g.add_node(obj);

    let mut first = PointeeSet::new();
    first.insert(n1.into());
    let h = g.create_hyperedge(first).unwrap();

    let path = Pointee::Path(GlobalObjPath::new(n2, "test_field").unwrap());
    let mut to_add = PointeeSet::new();
    to_add.insert(path.clone());
    g.add_hyperedge_members(h, to_add).unwrap();

    assert_eq!(paths_through(&g, n2), 1);
    assert_eq!(uses_of(&g, &path), 1);
    assert_well_formed(&g);
}

/// Empty input is a no-op success.
#[test]
fn lib_empty_input_is_noop() {
    let mut g = Graph::default();
    let obj = create_simple_obj("f");
    let n1 = g.add_node(obj);
    let mut first = PointeeSet::new();
    first.insert(n1.into());
    let h = g.create_hyperedge(first.clone()).unwrap();

    g.add_hyperedge_members(h, PointeeSet::new()).unwrap();

    assert_eq!(g.hyperedge_members(&h), Some(&first));
    assert_well_formed(&g);
}

#[test]
fn lib_test_create_hyperedge() {
    let mut g = Graph::default();
    let obj = create_simple_obj("field");
    let n1 = g.add_node(obj.clone());
    let n2 = g.add_node(obj);

    let mut m = PointeeSet::new();
    m.insert(n1.into());
    m.insert(n2.into());

    let h = g.create_hyperedge(m.clone()).unwrap();

    assert_eq!(
        *g.events().last().unwrap(),
        Patch::CreateHyperedge { id: h, members: m }
    )
}

#[test]
fn lib_test_add_node() {
    let mut g = Graph::default();
    let obj = create_simple_obj("field");
    let n1 = g.add_node(obj.clone());

    assert_eq!(*g.events().last().unwrap(), Patch::AddNode { id: n1, obj })
}

#[test]
fn lib_test_add_edge() {
    let mut g = Graph::default();
    let obj = create_simple_obj("field");
    let n1 = g.add_node(obj.clone());
    let n2 = g.add_node(obj);

    let e = g.add_edge(n1.into(), n2.into()).unwrap();

    assert_eq!(
        *g.events().last().unwrap(),
        Patch::AddEdge {
            id: e,
            source: n1.into(),
            target: n2.into()
        }
    )
}

#[test]
fn lib_test_remove_node() {
    let mut g = Graph::default();
    let obj = create_simple_obj("field");
    let n1 = g.add_node(obj.clone());
    let n2 = g.add_node(obj.clone());

    let e = g.add_edge(n1.into(), n2.into()).unwrap();

    g.remove_node(&n1).unwrap();

    // To ensure that remove doesn't produce remove event's
    assert_eq!(
        g.events()[0],
        Patch::AddNode {
            id: n1,
            obj: obj.clone()
        }
    );
    assert_eq!(g.events()[1], Patch::AddNode { id: n2, obj: obj });
    assert_eq!(
        g.events()[2],
        Patch::AddEdge {
            id: e,
            source: n1.into(),
            target: n2.into()
        }
    );
    assert_eq!(g.events()[3], Patch::RemoveNode { id: n1 })
}

#[test]
fn lib_test_remove_edge() {
    let mut g = Graph::default();
    let obj = create_simple_obj("field");
    let n1 = g.add_node(obj.clone());
    let n2 = g.add_node(obj.clone());

    let e = g.add_edge(n1.into(), n2.into()).unwrap();

    g.remove_edge(&e).unwrap();

    assert_eq!(*g.events().last().unwrap(), Patch::RemoveEdge { id: e });
}
