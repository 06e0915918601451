//! Path queries: the edges that lie on a simple path between two
//! entities, and the sub-graph they span.
//!
//! A path walks from pointee to pointee along edges — in their
//! direction, or either way when direction is ignored — and is simple
//! when no pointee occurs on it twice.

use vstd::prelude::*;

use crate::common::global_path::{Pointee, PointeeV};
use crate::common::ids::{EdgeId, EntityId, NodeId};
use crate::common::patch::Patch;
use crate::common::pointee_set::pointee_views;
use crate::db::graph::{law_well_formed, Graph};
use crate::db::model::{apply_patch_spec, lemma_replay_single, GraphV, Step};

verus! {

broadcast use vstd::seq_lib::group_seq_properties;

/// A step of a walk: the edge taken, the pointee it leaves and the
/// pointee it reaches.
pub type ArcV = (u128, PointeeV, PointeeV);

/// `e` leads from `u` to `v`: it is an edge from `u` to `v`, or, where
/// direction is ignored, from `v` to `u`.
pub open spec fn is_arc(g: GraphV, directed: bool, e: u128, u: PointeeV, v: PointeeV) -> bool {
    g.edges.contains_key(e) && (g.edges[e] == (u, v) || (!directed && g.edges[e] == (v, u)))
}

/// `vs` are pairwise distinct pointees, and the edges `es` lead from
/// each to the next.
pub open spec fn is_simple_path(g: GraphV, directed: bool, vs: Seq<PointeeV>, es: Seq<u128>) -> bool {
    &&& vs.len() == es.len() + 1
    &&& vs.no_duplicates()
    &&& forall|i: int| 0 <= i < es.len() ==> is_arc(g, directed, #[trigger] es[i], vs[i], vs[i + 1])
}

/// The edge `e` lies on a simple path from `lhs` to `rhs`.
pub open spec fn on_simple_path(g: GraphV, directed: bool, lhs: PointeeV, rhs: PointeeV, e: u128) -> bool {
    exists|vs: Seq<PointeeV>, es: Seq<u128>|
        #[trigger] is_simple_path(g, directed, vs, es) && vs[0] == lhs && vs.last() == rhs && es.contains(e)
}

// ------------------------------------------------------------------
// Walks over a list of arcs, the steps named by their positions.

/// `vs` are pairwise distinct and arc `js[i]` leads from `vs[i]` to
/// `vs[i + 1]`.
pub open spec fn path_idx(arcs: Seq<ArcV>, vs: Seq<PointeeV>, js: Seq<int>) -> bool {
    &&& vs.len() == js.len() + 1
    &&& vs.no_duplicates()
    &&& forall|i: int| 0 <= i < js.len() ==> 0 <= #[trigger] js[i] < arcs.len() && arcs[js[i]].1 == vs[i] && arcs[js[i]].2 == vs[i + 1]
}

/// The edges of the arcs at positions `js`.
pub open spec fn edges_of(arcs: Seq<ArcV>, js: Seq<int>) -> Seq<u128> {
    js.map_values(|j: int| arcs[j].0)
}

/// `(VS, JS)` is a walk to `t` that continues the walk `(vs, js)` by at
/// least one step.
pub open spec fn extends(arcs: Seq<ArcV>, vs: Seq<PointeeV>, js: Seq<int>, t: PointeeV, big_vs: Seq<PointeeV>, big_js: Seq<int>) -> bool {
    &&& path_idx(arcs, big_vs, big_js)
    &&& big_vs.len() > vs.len()
    &&& big_vs.take(vs.len() as int) == vs
    &&& big_js.take(js.len() as int) == js
    &&& big_vs.last() == t
}

/// `e` is an edge of some walk to `t` that continues `(vs, js)`.
pub open spec fn on_extension(arcs: Seq<ArcV>, vs: Seq<PointeeV>, js: Seq<int>, t: PointeeV, e: u128) -> bool {
    exists|big_vs: Seq<PointeeV>, big_js: Seq<int>|
        #[trigger] extends(arcs, vs, js, t, big_vs, big_js) && edges_of(arcs, big_js).contains(e)
}

/// As [`on_extension`], where the first added step is an arc at a
/// position below `i`.
pub open spec fn on_extension_below(arcs: Seq<ArcV>, vs: Seq<PointeeV>, js: Seq<int>, t: PointeeV, e: u128, i: int) -> bool {
    exists|big_vs: Seq<PointeeV>, big_js: Seq<int>|
        #[trigger] extends(arcs, vs, js, t, big_vs, big_js) && big_js[js.len() as int] < i && edges_of(arcs, big_js).contains(e)
}

/// A walk over distinct pointees takes distinct arcs, so no more steps
/// than there are arcs.
proof fn lemma_path_idx_len(arcs: Seq<ArcV>, vs: Seq<PointeeV>, js: Seq<int>)
    requires
        path_idx(arcs, vs, js),
    ensures
        js.len() <= arcs.len(),
{
    assert(js.no_duplicates()) by {
        assert forall|a: int, b: int| 0 <= a < js.len() && 0 <= b < js.len() && a != b implies js[a] != js[b] by {
            if js[a] == js[b] {
                assert(vs[a] == vs[b]);
            }
        }
    }
    js.unique_seq_to_set();
    assert(js.to_set().subset_of(vstd::set_lib::set_int_range(0, arcs.len() as int)));
    vstd::set_lib::lemma_int_range(0, arcs.len() as int);
    vstd::set_lib::lemma_len_subset(js.to_set(), vstd::set_lib::set_int_range(0, arcs.len() as int));
}

/// The views of a list of arcs.
pub open spec fn arc_views(arcs: Seq<(EdgeId, Pointee, Pointee)>) -> Seq<ArcV> {
    arcs.map_values(|a: (EdgeId, Pointee, Pointee)| (a.0, a.1@, a.2@))
}

/// Whether `p` is one of `vs`.
fn contains_pointee(vs: &Vec<Pointee>, p: &Pointee) -> (b: bool)
    ensures
        b == pointee_views(vs@).contains(p@),
{
    let mut i: usize = 0;
    while i < vs.len()
        invariant
            i <= vs@.len(),
            forall|k: int| 0 <= k < i ==> vs@[k]@ != p@,
        decreases vs@.len() - i,
    {
        if vs[i].same_as(p) {
            assert(pointee_views(vs@)[i as int] == p@);
            return true;
        }
        i = i + 1;
    }
    proof {
        if pointee_views(vs@).contains(p@) {
            let k = choose|k: int| 0 <= k < pointee_views(vs@).len() && pointee_views(vs@)[k] == p@;
            assert(vs@[k]@ == p@);
        }
    }
    false
}

/// Add each of `es` to `found`, keeping `found` free of repeats.
fn record_edges(es: &Vec<EdgeId>, found: &mut Vec<EdgeId>)
    requires
        old(found)@.no_duplicates(),
    ensures
        final(found)@.no_duplicates(),
        forall|x: EdgeId| final(found)@.contains(x) <==> old(found)@.contains(x) || es@.contains(x),
{
    let mut i: usize = 0;
    while i < es.len()
        invariant
            i <= es@.len(),
            found@.no_duplicates(),
            forall|x: EdgeId| found@.contains(x) <==> old(found)@.contains(x) || exists|k: int| 0 <= k < i && es@[k] == x,
        decreases es@.len() - i,
    {
        let e = es[i];
        let mut present = false;
        let mut j: usize = 0;
        while j < found.len()
            invariant
                j <= found@.len(),
                present == exists|k: int| 0 <= k < j && found@[k] == e,
            decreases found@.len() - j,
        {
            if found[j] == e {
                present = true;
            }
            j = j + 1;
        }
        if !present {
            found.push(e);
        }
        i = i + 1;
        proof {
            assert forall|x: EdgeId| found@.contains(x) <==> old(found)@.contains(x) || exists|k: int| 0 <= k < i && es@[k] == x by {
                if x == e {
                    assert(es@[i - 1] == e);
                }
            }
        }
    }
    proof {
        assert forall|x: EdgeId| found@.contains(x) <==> old(found)@.contains(x) || es@.contains(x) by {
            if es@.contains(x) {
                let k = choose|k: int| 0 <= k < es@.len() && es@[k] == x;
            }
        }
    }
}

/// Depth-first search from the last pointee of the walk `(vs, es)`:
/// add to `found` every edge of every simple walk to `target` that
/// continues it. `js` names the arcs of the walk so far.
fn dfs(
    arcs: &Vec<(EdgeId, Pointee, Pointee)>,
    target: &Pointee,
    vs: &mut Vec<Pointee>,
    es: &mut Vec<EdgeId>,
    Ghost(js): Ghost<Seq<int>>,
    found: &mut Vec<EdgeId>,
)
    requires
        path_idx(arc_views(arcs@), pointee_views(old(vs)@), js),
        old(es)@ == edges_of(arc_views(arcs@), js),
        !pointee_views(old(vs)@).contains(target@),
        old(found)@.no_duplicates(),
    ensures
        final(vs)@ == old(vs)@,
        final(es)@ == old(es)@,
        final(found)@.no_duplicates(),
        forall|e: EdgeId| final(found)@.contains(e) <==> old(found)@.contains(e)
            || on_extension(arc_views(arcs@), pointee_views(old(vs)@), js, target@, e),
    decreases arcs@.len() - js.len(),
{
    let ghost a = arc_views(arcs@);
    let ghost v0 = pointee_views(vs@);
    let ghost vs0 = vs@;
    let ghost es0 = es@;
    let ghost k = js.len() as int;
    let ghost t = target@;
    proof {
        lemma_path_idx_len(a, v0, js);
    }
    let last = vs.len() - 1;
    let cur = vs[last].clone();
    assert(cur@ == v0[k]);
    let n = arcs.len();
    let mut i: usize = 0;
    while i < n
        invariant
            n == arcs@.len(),
            a == arc_views(arcs@),
            i <= n,
            vs@ == vs0,
            es@ == es0,
            v0 == pointee_views(vs0),
            path_idx(a, v0, js),
            es0 == edges_of(a, js),
            !v0.contains(t),
            t == target@,
            k == js.len(),
            cur@ == v0[k],
            js.len() <= n,
            found@.no_duplicates(),
            forall|e: EdgeId| found@.contains(e) <==> old(found)@.contains(e) || on_extension_below(a, v0, js, t, e, i as int),
        decreases n - i,
    {
        let ghost found_i = found@;
        let u = &arcs[i].1;
        let v = &arcs[i].2;
        let eid = arcs[i].0;
        assert(a[i as int] == (eid, u@, v@));
        let leaves_here = u.same_as(&cur);
        let seen = contains_pointee(vs, v);
        if leaves_here && !seen {
            let ghost js1 = js.push(i as int);
            let ghost v1 = v0.push(v@);
            proof {
                assert forall|m: int| 0 <= m < js1.len() implies 0 <= #[trigger] js1[m] < a.len() && a[js1[m]].1 == v1[m] && a[js1[m]].2 == v1[m + 1] by {
                    if m < k {
                        assert(js1[m] == js[m]);
                    }
                }
                assert(path_idx(a, v1, js1));
                lemma_path_idx_len(a, v1, js1);
                assert(edges_of(a, js1) =~= es0.push(eid));
            }
            es.push(eid);
            if v.same_as(target) {
                record_edges(es, found);
                proof {
                    assert forall|e: EdgeId| #![trigger found@.contains(e)]
                        found@.contains(e) <==> old(found)@.contains(e) || on_extension_below(a, v0, js, t, e, i + 1) by {
                        if on_extension_below(a, v0, js, t, e, i + 1) && !on_extension_below(a, v0, js, t, e, i as int) {
                            let (bv, bj) = choose|bv: Seq<PointeeV>, bj: Seq<int>|
                                #[trigger] extends(a, v0, js, t, bv, bj) && bj[k] < i + 1 && edges_of(a, bj).contains(e);
                            assert(bj[k] == i);
                            assert(bv[k + 1] == t);
                            if bv.len() > k + 2 {
                                assert(bv[bv.len() - 1] == bv[k + 1]);
                            }
                            assert(bj =~= js1) by {
                                assert forall|m: int| 0 <= m < bj.len() implies bj[m] == js1[m] by {
                                    if m < k {
                                        assert(bj.take(k)[m] == bj[m]);
                                    }
                                }
                            }
                            assert(es@ == edges_of(a, bj));
                        }
                        if es@.contains(e) {
                            let bv = v1;
                            assert(bv.take(k + 1) =~= v0);
                            assert(js1.take(k) =~= js);
                            assert(extends(a, v0, js, t, bv, js1));
                            assert(edges_of(a, js1).contains(e));
                        }
                    }
                }
            } else {
                vs.push(v.clone());
                proof {
                    assert(pointee_views(vs@) =~= v1);
                }
                dfs(arcs, target, vs, es, Ghost(js1), found);
                vs.pop();
                proof {
                    assert(vs@ =~= vs0);
                    assert forall|e: EdgeId| #![trigger found@.contains(e)]
                        found@.contains(e) <==> old(found)@.contains(e) || on_extension_below(a, v0, js, t, e, i + 1) by {
                        if on_extension_below(a, v0, js, t, e, i + 1) && !on_extension_below(a, v0, js, t, e, i as int) {
                            let (bv, bj) = choose|bv: Seq<PointeeV>, bj: Seq<int>|
                                #[trigger] extends(a, v0, js, t, bv, bj) && bj[k] < i + 1 && edges_of(a, bj).contains(e);
                            assert(bj[k] == i);
                            assert(bv[k + 1] == v1[k + 1]);
                            assert(bv.take(k + 2) =~= v1) by {
                                assert forall|m: int| 0 <= m < k + 2 implies bv.take(k + 2)[m] == v1[m] by {
                                    if m <= k {
                                        assert(bv.take(k + 1)[m] == bv[m]);
                                    }
                                }
                            }
                            assert(bj.take(k + 1) =~= js1) by {
                                assert forall|m: int| 0 <= m < k + 1 implies bj.take(k + 1)[m] == js1[m] by {
                                    if m < k {
                                        assert(bj.take(k)[m] == bj[m]);
                                    }
                                }
                            }
                            assert(extends(a, v1, js1, t, bv, bj));
                        }
                        if on_extension(a, v1, js1, t, e) {
                            let (bv, bj) = choose|bv: Seq<PointeeV>, bj: Seq<int>|
                                #[trigger] extends(a, v1, js1, t, bv, bj) && edges_of(a, bj).contains(e);
                            assert(bv.take(k + 1) =~= v0) by {
                                assert forall|m: int| 0 <= m < k + 1 implies bv.take(k + 1)[m] == v0[m] by {
                                    assert(bv.take(k + 2)[m] == bv[m]);
                                }
                            }
                            assert(bj.take(k) =~= js) by {
                                assert forall|m: int| 0 <= m < k implies bj.take(k)[m] == js[m] by {
                                    assert(bj.take(k + 1)[m] == bj[m]);
                                }
                            }
                            assert(bj[k] == bj.take(k + 1)[k]);
                            assert(extends(a, v0, js, t, bv, bj));
                        }
                    }
                }
            }
            es.pop();
            proof {
                assert(es@ =~= es0);
            }
        } else {
            proof {
                assert forall|e: EdgeId| #![trigger found@.contains(e)]
                    found@.contains(e) <==> old(found)@.contains(e) || on_extension_below(a, v0, js, t, e, i + 1) by {
                    if on_extension_below(a, v0, js, t, e, i + 1) && !on_extension_below(a, v0, js, t, e, i as int) {
                        let (bv, bj) = choose|bv: Seq<PointeeV>, bj: Seq<int>|
                            #[trigger] extends(a, v0, js, t, bv, bj) && bj[k] < i + 1 && edges_of(a, bj).contains(e);
                        assert(bj[k] == i);
                        assert(bv[k] == bv.take(k + 1)[k]);
                        if !leaves_here {
                            assert(false);
                        } else {
                            let m = choose|m: int| 0 <= m < v0.len() && v0[m] == v@;
                            assert(bv[m] == bv.take(k + 1)[m]);
                            assert(bv[k + 1] == v@);
                            assert(false);
                        }
                    }
                }
            }
        }
        i = i + 1;
    }
    proof {
        assert forall|e: EdgeId| #![trigger found@.contains(e)]
            found@.contains(e) <==> old(found)@.contains(e) || on_extension(a, v0, js, t, e) by {
            if on_extension(a, v0, js, t, e) {
                let (bv, bj) = choose|bv: Seq<PointeeV>, bj: Seq<int>|
                    #[trigger] extends(a, v0, js, t, bv, bj) && edges_of(a, bj).contains(e);
                assert(bj[k] < n);
                assert(on_extension_below(a, v0, js, t, e, n as int));
            }
        }
    }
}

/// The arcs of `g`: every edge from its source to its target, and,
/// where direction is ignored, also from its target to its source.
fn build_arcs(g: &Graph, directed: bool) -> (arcs: Vec<(EdgeId, Pointee, Pointee)>)
    ensures
        forall|j: int| 0 <= j < arcs@.len() ==> is_arc(g@, directed, (#[trigger] arc_views(arcs@)[j]).0, arc_views(arcs@)[j].1, arc_views(arcs@)[j].2),
        forall|e: u128, u: PointeeV, v: PointeeV| #[trigger] is_arc(g@, directed, e, u, v) ==> exists|j: int| 0 <= j < arcs@.len() && arc_views(arcs@)[j] == (e, u, v),
{
    let ids = g.iter_edges();
    let mut arcs: Vec<(EdgeId, Pointee, Pointee)> = Vec::new();
    let mut i: usize = 0;
    while i < ids.len()
        invariant
            i <= ids@.len(),
            ids@.to_set() == g@.edges.dom(),
            forall|j: int| 0 <= j < arcs@.len() ==> is_arc(g@, directed, (#[trigger] arc_views(arcs@)[j]).0, arc_views(arcs@)[j].1, arc_views(arcs@)[j].2),
            forall|e: u128, u: PointeeV, v: PointeeV| #[trigger] is_arc(g@, directed, e, u, v) && (exists|m: int| 0 <= m < i && ids@[m] == e)
                ==> exists|j: int| 0 <= j < arcs@.len() && arc_views(arcs@)[j] == (e, u, v),
        decreases ids@.len() - i,
    {
        let e = ids[i];
        assert(ids@.to_set().contains(e));
        let view = match g.edge(&e) {
            Ok(v) => v,
            Err(_) => {
                assert(false);
                return arcs;
            },
        };
        let ghost before = arc_views(arcs@);
        let s2 = view.source.clone();
        let t2 = view.target.clone();
        arcs.push((e, view.source, view.target));
        if !directed {
            arcs.push((e, t2, s2));
        }
        i = i + 1;
        proof {
            let now = arc_views(arcs@);
            assert forall|j: int| 0 <= j < before.len() implies now[j] == before[j] by {}
            assert(now[before.len() as int] == (e, g@.edges[e].0, g@.edges[e].1));
            if !directed {
                assert(now[before.len() as int + 1] == (e, g@.edges[e].1, g@.edges[e].0));
            }
            assert forall|x: u128, u: PointeeV, v: PointeeV| #[trigger] is_arc(g@, directed, x, u, v) && (exists|m: int| 0 <= m < i && ids@[m] == x)
                implies exists|j: int| 0 <= j < arcs@.len() && arc_views(arcs@)[j] == (x, u, v) by {
                if x == e {
                    if g@.edges[e] == (u, v) {
                        assert(now[before.len() as int] == (x, u, v));
                    } else {
                        assert(now[before.len() as int + 1] == (x, u, v));
                    }
                } else {
                    let m = choose|m: int| 0 <= m < i && ids@[m] == x;
                    assert(m < i - 1);
                    let j = choose|j: int| 0 <= j < before.len() && before[j] == (x, u, v);
                    assert(now[j] == (x, u, v));
                }
            }
        }
    }
    proof {
        assert forall|x: u128, u: PointeeV, v: PointeeV| #[trigger] is_arc(g@, directed, x, u, v)
            implies exists|j: int| 0 <= j < arcs@.len() && arc_views(arcs@)[j] == (x, u, v) by {
            assert(ids@.to_set().contains(x));
            let m = choose|m: int| 0 <= m < ids@.len() && ids@[m] == x;
        }
    }
    arcs
}

/// The edges that lie on some simple path from `lhs` to `rhs`, each
/// once; `directed` says whether edges are walked only from source to
/// target.
pub fn path_edges(g: &Graph, lhs: &Pointee, rhs: &Pointee, directed: bool) -> (r: Vec<EdgeId>)
    requires
        lhs@ != rhs@,
    ensures
        r@.no_duplicates(),
        forall|e: EdgeId| r@.contains(e) <==> on_simple_path(g@, directed, lhs@, rhs@, e),
{
    let arcs = build_arcs(g, directed);
    let ghost a = arc_views(arcs@);
    let mut vs: Vec<Pointee> = Vec::new();
    vs.push(lhs.clone());
    let mut es: Vec<EdgeId> = Vec::new();
    let mut found: Vec<EdgeId> = Vec::new();
    let ghost v0 = pointee_views(vs@);
    proof {
        assert(v0 =~= seq![lhs@]);
        assert(path_idx(a, v0, Seq::<int>::empty()));
        assert(edges_of(a, Seq::<int>::empty()) =~= es@);
    }
    dfs(&arcs, rhs, &mut vs, &mut es, Ghost(Seq::<int>::empty()), &mut found);
    proof {
        assert forall|e: EdgeId| found@.contains(e) <==> on_simple_path(g@, directed, lhs@, rhs@, e) by {
            if found@.contains(e) {
                let (bv, bj) = choose|bv: Seq<PointeeV>, bj: Seq<int>|
                    #[trigger] extends(a, v0, Seq::<int>::empty(), rhs@, bv, bj) && edges_of(a, bj).contains(e);
                let bes = edges_of(a, bj);
                assert forall|i: int| 0 <= i < bes.len() implies is_arc(g@, directed, #[trigger] bes[i], bv[i], bv[i + 1]) by {
                    assert(0 <= bj[i] < a.len());
                }
                assert(bv[0] == bv.take(1)[0]);
                assert(is_simple_path(g@, directed, bv, bes));
            }
            if on_simple_path(g@, directed, lhs@, rhs@, e) {
                let (pv, pe) = choose|pv: Seq<PointeeV>, pe: Seq<u128>|
                    #[trigger] is_simple_path(g@, directed, pv, pe) && pv[0] == lhs@ && pv.last() == rhs@ && pe.contains(e);
                let js = Seq::new(pe.len(), |i: int| choose|j: int| 0 <= j < a.len() && a[j] == (pe[i], pv[i], pv[i + 1]));
                assert forall|i: int| 0 <= i < js.len() implies 0 <= #[trigger] js[i] < a.len() && a[js[i]].1 == pv[i] && a[js[i]].2 == pv[i + 1] && a[js[i]].0 == pe[i] by {
                    assert(is_arc(g@, directed, pe[i], pv[i], pv[i + 1]));
                }
                assert(path_idx(a, pv, js));
                assert(edges_of(a, js) =~= pe);
                assert(pv.len() > 1);
                assert(pv.take(1) =~= v0);
                assert(js.take(0) =~= Seq::<int>::empty());
                assert(extends(a, v0, Seq::<int>::empty(), rhs@, pv, js));
            }
        }
    }
    found
}

// ------------------------------------------------------------------
// The sub-graph spanned by the paths.

/// Every id of `r` is in `g`, with the same object, endpoints or
/// members.
pub open spec fn is_subgraph(r: GraphV, g: GraphV) -> bool {
    &&& forall|x: u128| #[trigger] r.entities.contains_key(x) ==> g.entities.contains_key(x) && r.entities[x] == g.entities[x]
    &&& forall|x: u128| #[trigger] r.edges.contains_key(x) ==> g.edges.contains_key(x) && r.edges[x] == g.edges[x]
    &&& forall|x: u128| #[trigger] r.hyperedges.contains_key(x) ==> g.hyperedges.contains_key(x) && r.hyperedges[x] == g.hyperedges[x]
}

/// `p` can be rebuilt from entity ids alone, at most `depth` levels
/// deep: an id of a node, or of an edge (or, failing that, a
/// hyperedge) whose endpoints (members) can be rebuilt one level less
/// deep. A path into an object cannot.
pub open spec fn rebuildable(g: GraphV, p: PointeeV, depth: nat) -> bool
    decreases depth,
{
    match p {
        PointeeV::Path(_, _) => false,
        PointeeV::EntityId(id) => depth > 0 && if g.edges.contains_key(id) {
            rebuildable(g, g.edges[id].0, (depth - 1) as nat) && rebuildable(g, g.edges[id].1, (depth - 1) as nat)
        } else if g.hyperedges.contains_key(id) {
            forall|m: PointeeV| #[trigger] g.hyperedges[id].contains(m) ==> rebuildable(g, m, (depth - 1) as nat)
        } else {
            g.entities.contains_key(id)
        },
    }
}

/// The edge or hyperedge `a` has the entity id `b` as an endpoint or
/// member.
pub open spec fn depends_on(g: GraphV, a: u128, b: u128) -> bool {
    ||| g.edges.contains_key(a) && (g.edges[a].0 == PointeeV::EntityId(b) || g.edges[a].1 == PointeeV::EntityId(b))
    ||| !g.edges.contains_key(a) && g.hyperedges.contains_key(a) && g.hyperedges[a].contains(PointeeV::EntityId(b))
}

/// No id is reached from itself through one or more endpoints and
/// members: rebuilding an endpoint never comes back to where it began.
pub open spec fn dep_acyclic(g: GraphV) -> bool {
    forall|c: Seq<u128>| #[trigger] dep_chain(g, c) && c.len() > 1 ==> c[0] != c.last()
}

/// `b` is `a`, or is reached from `a` through endpoints and members.
pub open spec fn dep_reach(g: GraphV, a: u128, b: u128) -> bool {
    exists|c: Seq<u128>| #[trigger] dep_chain(g, c) && c[0] == a && c.last() == b
}

/// Each id of `c` depends on the next.
pub open spec fn dep_chain(g: GraphV, c: Seq<u128>) -> bool {
    &&& c.len() >= 1
    &&& forall|i: int| 0 <= i < c.len() - 1 ==> depends_on(g, #[trigger] c[i], c[i + 1])
}

proof fn lemma_dep_reach_self(g: GraphV, a: u128)
    ensures
        dep_reach(g, a, a),
{
    assert(dep_chain(g, seq![a]));
}

proof fn lemma_dep_reach_prepend(g: GraphV, a: u128, b: u128, x: u128)
    requires
        depends_on(g, a, b),
        dep_reach(g, b, x),
    ensures
        dep_reach(g, a, x),
{
    let c = choose|c: Seq<u128>| #[trigger] dep_chain(g, c) && c[0] == b && c.last() == x;
    let c2 = seq![a] + c;
    assert forall|i: int| 0 <= i < c2.len() - 1 implies depends_on(g, #[trigger] c2[i], c2[i + 1]) by {
        if i > 0 {
            assert(c2[i] == c[i - 1]);
            assert(c2[i + 1] == c[i]);
        }
    }
    assert(dep_chain(g, c2));
}

/// `x` exists, and is a node, an edge whose two endpoints are entity
/// ids, or a hyperedge whose members all are.
pub open spec fn held_by_ids(g: GraphV, x: u128) -> bool {
    &&& g.is_exist(x)
    &&& g.edges.contains_key(x) ==> (g.edges[x].0 is EntityId && g.edges[x].1 is EntityId)
    &&& (!g.edges.contains_key(x) && g.hyperedges.contains_key(x)) ==> forall|m: PointeeV|
        #[trigger] g.hyperedges[x].contains(m) ==> m is EntityId
}

/// Everything `x` reaches through endpoints and members, `x` included,
/// is held by entity ids alone, down to nodes: no path into an object
/// stands anywhere below `x`.
pub open spec fn ids_only_below(g: GraphV, x: u128) -> bool {
    forall|y: u128| #[trigger] dep_reach(g, x, y) ==> held_by_ids(g, y)
}

proof fn lemma_ids_only_below_step(g: GraphV, x: u128, y: u128)
    requires
        ids_only_below(g, x),
        depends_on(g, x, y),
    ensures
        ids_only_below(g, y),
{
    assert forall|z: u128| #[trigger] dep_reach(g, y, z) implies held_by_ids(g, z) by {
        lemma_dep_reach_prepend(g, x, y, z);
    }
}

/// Where `x` cannot be rebuilt `d` levels deep though everything below
/// it is held by entity ids, a chain of `d + 1` existing ids starts at
/// `x`, each depending on the next.
proof fn lemma_fail_chain(g: GraphV, x: u128, d: nat) -> (c: Seq<u128>)
    requires
        ids_only_below(g, x),
        !rebuildable(g, PointeeV::EntityId(x), d),
    ensures
        dep_chain(g, c),
        c.len() == d + 1,
        c[0] == x,
        forall|i: int| 0 <= i < c.len() ==> g.is_exist(#[trigger] c[i]),
    decreases d,
{
    lemma_dep_reach_self(g, x);
    assert(held_by_ids(g, x));
    if d == 0 {
        let c = seq![x];
        assert(dep_chain(g, c));
        c
    } else {
        let y: u128 = if g.edges.contains_key(x) {
            let (a, b) = g.edges[x];
            if !rebuildable(g, a, (d - 1) as nat) {
                a->EntityId_0
            } else {
                b->EntityId_0
            }
        } else {
            let m = choose|m: PointeeV| #[trigger] g.hyperedges[x].contains(m) && !rebuildable(g, m, (d - 1) as nat);
            m->EntityId_0
        };
        assert(depends_on(g, x, y));
        assert(!rebuildable(g, PointeeV::EntityId(y), (d - 1) as nat));
        lemma_ids_only_below_step(g, x, y);
        let c1 = lemma_fail_chain(g, y, (d - 1) as nat);
        let c = seq![x] + c1;
        assert forall|i: int| 0 <= i < c.len() - 1 implies depends_on(g, #[trigger] c[i], c[i + 1]) by {
            if i > 0 {
                assert(c[i] == c1[i - 1]);
                assert(c[i + 1] == c1[i]);
            }
        }
        assert forall|i: int| 0 <= i < c.len() implies g.is_exist(#[trigger] c[i]) by {
            if i > 0 {
                assert(c[i] == c1[i - 1]);
            }
        }
        c
    }
}

/// An edge held by entity ids all the way down can be rebuilt within
/// the depth the path queries use, in a graph where nothing reaches
/// itself through endpoints and members.
pub proof fn law_ids_only_rebuildable(g: GraphV, e: u128)
    requires
        g.wf(),
        dep_acyclic(g),
        ids_only_below(g, e),
    ensures
        rebuildable(g, PointeeV::EntityId(e), rebuild_depth(g) + 1),
{
    let n = rebuild_depth(g);
    if !rebuildable(g, PointeeV::EntityId(e), n + 1) {
        let c = lemma_fail_chain(g, e, n + 1);
        let ids = Set::new(|id: u128| g.is_exist(id));
        assert(ids =~= g.entities.dom().union(g.edges.dom()).union(g.hyperedges.dom()));
        if c.no_duplicates() {
            c.unique_seq_to_set();
            assert(c.to_set().subset_of(ids)) by {
                assert forall|a: u128| c.to_set().contains(a) implies ids.contains(a) by {
                    let i = choose|i: int| 0 <= i < c.len() && c[i] == a;
                    assert(g.is_exist(c[i]));
                }
            }
            vstd::set_lib::lemma_len_subset(c.to_set(), ids);
        } else {
            let (i, j) = choose|i: int, j: int| 0 <= i < c.len() && 0 <= j < c.len() && i != j && c[i] == c[j];
            let (a, b) = if i < j { (i, j) } else { (j, i) };
            let sub = c.subrange(a, b + 1);
            assert forall|k: int| 0 <= k < sub.len() - 1 implies depends_on(g, #[trigger] sub[k], sub[k + 1]) by {
                assert(sub[k] == c[a + k]);
                assert(sub[k + 1] == c[a + k + 1]);
            }
            assert(dep_chain(g, sub));
            assert(sub[0] == sub.last());
        }
    }
}

/// Apply one patch to `result`, whether it is taken or refused.
fn apply_one(result: &mut Graph, p: Patch)
    requires
        old(result).inv(),
        !(apply_patch_spec(old(result)@, p) is Panic),
    ensures
        final(result).inv(),
        match apply_patch_spec(old(result)@, p) {
            Step::Done(g2) => final(result)@ == g2,
            Step::Fail(g2, _) => final(result)@ == g2,
            Step::Panic => false,
        },
{
    let ghost q = p;
    let mut one: Vec<Patch> = Vec::new();
    one.push(p);
    proof {
        assert(one@ =~= seq![q]);
        lemma_replay_single(result@, q);
    }
    match result.apply_patch(one) {
        Ok(()) => {},
        Err(_) => {},
    }
}

/// `x` is in `r` in the form it has in `g`: as an edge, else as a
/// hyperedge, else as an object.
pub open spec fn held_as_in(r: GraphV, g: GraphV, x: u128) -> bool {
    if g.edges.contains_key(x) {
        r.edges.contains_key(x)
    } else if g.hyperedges.contains_key(x) {
        r.hyperedges.contains_key(x)
    } else {
        r.entities.contains_key(x)
    }
}

proof fn lemma_held_persists(r1: GraphV, r2: GraphV, g: GraphV)
    requires
        is_subgraph(r1, r2),
    ensures
        forall|x: u128| #[trigger] held_as_in(r1, g, x) ==> held_as_in(r2, g, x),
        forall|x: u128| #[trigger] r1.is_exist(x) ==> r2.is_exist(x),
{
}

/// Make sure the entity `p` names is in `result`, adding first, as
/// deep as `depth` allows, the endpoints of an edge or the members of a
/// hyperedge; a path, an entity already in `result`, or a depth of zero
/// leaves `result` as it is.
#[verifier::rlimit(40)]
fn ensure_in_result(g: &Graph, p: &Pointee, result: &mut Graph, depth: usize)
    requires
        g.inv(),
        old(result).inv(),
        is_subgraph(old(result)@, g@),
    ensures
        final(result).inv(),
        is_subgraph(final(result)@, g@),
        is_subgraph(old(result)@, final(result)@),
        rebuildable(g@, p@, depth as nat) ==> (p@ matches PointeeV::EntityId(id) && final(result)@.is_exist(id)),
        forall|x: u128| #[trigger] final(result)@.is_exist(x) && !old(result)@.is_exist(x)
            ==> (p@ matches PointeeV::EntityId(id) && dep_reach(g@, id, x)),
        (p@ is Path || (p@ matches PointeeV::EntityId(id) && old(result)@.is_exist(id)) || depth == 0)
            ==> *final(result) == *old(result),
        forall|x: u128| #[trigger] final(result)@.is_exist(x) && !old(result)@.is_exist(x)
            ==> held_as_in(final(result)@, g@, x),
    decreases depth,
{
    let id = match p {
        Pointee::Path(_) => {
            return;
        },
        Pointee::EntityId(id) => *id,
    };
    if result.is_exist(&id) || depth == 0 {
        return;
    }
    proof {
        lemma_dep_reach_self(g@, id);
        law_well_formed(g);
    }
    let ghost r0 = result@;
    match g.edge(&id) {
        Ok(t) => {
            let ghost src = t.source@;
            let ghost tgt = t.target@;
            ensure_in_result(g, &t.source, result, depth - 1);
            let ghost r1 = result@;
            ensure_in_result(g, &t.target, result, depth - 1);
            let ghost r2 = result@;
            apply_one(result, Patch::AddEdge { id, source: t.source, target: t.target });
            proof {
                lemma_held_persists(r1, r2, g@);
                lemma_held_persists(r2, result@, g@);
                assert forall|x: u128| #[trigger] result@.is_exist(x) && !r0.is_exist(x) implies held_as_in(result@, g@, x) by {
                    if r1.is_exist(x) {
                        assert(held_as_in(r1, g@, x));
                    } else if r2.is_exist(x) {
                        assert(held_as_in(r2, g@, x));
                    }
                }
                assert forall|x: u128| #[trigger] result@.is_exist(x) && !r0.is_exist(x) implies dep_reach(g@, id, x) by {
                    if x != id {
                        if r1.is_exist(x) {
                            match src {
                                PointeeV::EntityId(y) => lemma_dep_reach_prepend(g@, id, y, x),
                                PointeeV::Path(_, _) => {},
                            }
                        } else if r2.is_exist(x) {
                            match tgt {
                                PointeeV::EntityId(y) => lemma_dep_reach_prepend(g@, id, y, x),
                                PointeeV::Path(_, _) => {},
                            }
                        }
                    }
                }
            }
            return;
        },
        Err(_) => {},
    }
    match g.hyperedge_members(&id) {
        Some(members) => {
            let n = members.len();
            let mut i: usize = 0;
            while i < n
                invariant
                    n == members.seq().len(),
                    members.seq().to_set() == members@,
                    members@ == g@.hyperedges[id],
                    g@.hyperedges.contains_key(id),
                    !g@.edges.contains_key(id),
                    i <= n,
                    g.inv(),
                    result.inv(),
                    is_subgraph(result@, g@),
                    is_subgraph(r0, result@),
                    !r0.is_exist(id),
                    depth > 0,
                    forall|k: int| 0 <= k < i && rebuildable(g@, members.seq()[k], (depth - 1) as nat)
                        ==> (#[trigger] members.seq()[k] matches PointeeV::EntityId(y) && result@.is_exist(y)),
                    forall|x: u128| #[trigger] result@.is_exist(x) && !r0.is_exist(x) ==> dep_reach(g@, id, x),
                    forall|x: u128| #[trigger] result@.is_exist(x) && !r0.is_exist(x) ==> held_as_in(result@, g@, x),
                decreases n - i,
            {
                let m = members.get(i);
                let ghost ri = result@;
                ensure_in_result(g, m, result, depth - 1);
                proof {
                    lemma_held_persists(ri, result@, g@);
                    assert forall|x: u128| #[trigger] result@.is_exist(x) && !r0.is_exist(x) implies held_as_in(result@, g@, x) by {
                        if ri.is_exist(x) {
                            assert(held_as_in(ri, g@, x));
                        }
                    }
                    assert forall|x: u128| #[trigger] result@.is_exist(x) && !r0.is_exist(x) implies dep_reach(g@, id, x) by {
                        if !ri.is_exist(x) {
                            assert(g@.hyperedges[id].contains(m@));
                            match m@ {
                                PointeeV::EntityId(y) => lemma_dep_reach_prepend(g@, id, y, x),
                                PointeeV::Path(_, _) => {},
                            }
                        }
                    }
                }
                i = i + 1;
            }
            let copy = members.clone();
            let ghost rh = result@;
            proof {
                if rebuildable(g@, p@, depth as nat) {
                    assert forall|q: PointeeV| #[trigger] members@.contains(q) implies rh.pointee_exists(q) by {
                        assert(members.seq().to_set().contains(q));
                        let k = choose|k: int| 0 <= k < n && members.seq()[k] == q;
                        assert(rebuildable(g@, members.seq()[k], (depth - 1) as nat));
                    }
                }
            }
            apply_one(result, Patch::CreateHyperedge { id, members: copy });
            proof {
                lemma_held_persists(rh, result@, g@);
                assert forall|x: u128| #[trigger] result@.is_exist(x) && !r0.is_exist(x) implies held_as_in(result@, g@, x) by {
                    if rh.is_exist(x) {
                        assert(held_as_in(rh, g@, x));
                    }
                }
                assert forall|x: u128| #[trigger] result@.is_exist(x) && !r0.is_exist(x) implies dep_reach(g@, id, x) by {
                    if x != id {
                        assert(rh.is_exist(x));
                    }
                }
            }
            return;
        },
        None => {},
    }
    match g.obj(&id) {
        Some(obj) => {
            apply_one(result, Patch::AddNode { id, obj: obj.clone() });
        },
        None => {},
    }
}

/// The number of distinct entity ids of `g`: the depth to which the
/// path queries rebuild the endpoints of an edge.
pub open spec fn rebuild_depth(g: GraphV) -> nat {
    Set::new(|id: u128| g.is_exist(id)).len()
}

/// The graph holding only the object `g` carries under `id`, if any.
pub open spec fn singleton(g: GraphV, id: u128) -> GraphV {
    GraphV {
        entities: if g.entities.contains_key(id) {
            Map::<u128, crate::db::object_patch::ObjV>::empty().insert(id, g.entities[id])
        } else {
            Map::<u128, crate::db::object_patch::ObjV>::empty()
        },
        edges: Map::<u128, (PointeeV, PointeeV)>::empty(),
        hyperedges: Map::<u128, Set<PointeeV>>::empty(),
    }
}

/// The sub-graph spanned by the simple paths from `lhs` to `rhs`:
/// every edge on such a path, after the entities its endpoints name
/// (for an edge or hyperedge endpoint, its own endpoints or members
/// first, and so on down to nodes); a path endpoint adds nothing.
/// Where `lhs == rhs`, the object of `lhs` alone.
fn paths_subgraph(g: &Graph, lhs: NodeId, rhs: NodeId, directed: bool) -> (r: Graph)
    requires
        g.inv(),
    ensures
        r.inv(),
        is_subgraph(r@, g@),
        lhs == rhs ==> r@ == singleton(g@, lhs),
        lhs != rhs ==> forall|e: EdgeId|
            on_simple_path(g@, directed, PointeeV::EntityId(lhs), PointeeV::EntityId(rhs), e)
                && #[trigger] rebuildable(g@, PointeeV::EntityId(e), rebuild_depth(g@) + 1)
                ==> r@.edges.contains_key(e),
        lhs != rhs ==> forall|x: EntityId| #[trigger] r@.is_exist(x) ==> exists|e: EdgeId|
            on_simple_path(g@, directed, PointeeV::EntityId(lhs), PointeeV::EntityId(rhs), e) && dep_reach(g@, e, x),
{
    let mut result = Graph::new();
    if lhs == rhs {
        match g.obj(&lhs) {
            Some(obj) => {
                apply_one(&mut result, Patch::AddNode { id: lhs, obj: obj.clone() });
                proof {
                    assert(result@.entities =~= singleton(g@, lhs).entities);
                }
            },
            None => {},
        }
        proof {
            assert(result@.entities =~= singleton(g@, lhs).entities);
            assert(result@.edges =~= singleton(g@, lhs).edges);
            assert(result@.hyperedges =~= singleton(g@, lhs).hyperedges);
        }
        return result;
    }
    let ids = g.iter_entities();
    let depth = ids.len();
    proof {
        ids@.unique_seq_to_set();
    }
    let found = path_edges(g, &Pointee::EntityId(lhs), &Pointee::EntityId(rhs), directed);
    let ghost l = PointeeV::EntityId(lhs);
    let ghost rr = PointeeV::EntityId(rhs);
    let mut i: usize = 0;
    while i < found.len()
        invariant
            i <= found@.len(),
            depth == rebuild_depth(g@),
            g.inv(),
            result.inv(),
            is_subgraph(result@, g@),
            forall|e: EdgeId| found@.contains(e) <==> on_simple_path(g@, directed, l, rr, e),
            forall|k: int| 0 <= k < i && rebuildable(g@, PointeeV::EntityId(found@[k]), (depth + 1) as nat)
                ==> result@.edges.contains_key(#[trigger] found@[k]),
            forall|x: EntityId| #[trigger] result@.is_exist(x) ==> exists|e: EdgeId| on_simple_path(g@, directed, l, rr, e) && dep_reach(g@, e, x),
        decreases found@.len() - i,
    {
        let e = found[i];
        assert(found@.contains(e));
        let t = match g.edge(&e) {
            Ok(t) => t,
            Err(_) => {
                proof {
                    let (pv, pe) = choose|pv: Seq<PointeeV>, pe: Seq<u128>|
                        #[trigger] is_simple_path(g@, directed, pv, pe) && pv[0] == l && pv.last() == rr && pe.contains(e);
                    let k = choose|k: int| 0 <= k < pe.len() && pe[k] == e;
                    assert(is_arc(g@, directed, pe[k], pv[k], pv[k + 1]));
                }
                return result;
            },
        };
        let ghost src = t.source@;
        let ghost tgt = t.target@;
        let ghost r0 = result@;
        proof {
            lemma_dep_reach_self(g@, e);
        }
        ensure_in_result(g, &t.source, &mut result, depth);
        let ghost r1 = result@;
        ensure_in_result(g, &t.target, &mut result, depth);
        let ghost r2 = result@;
        apply_one(&mut result, Patch::AddEdge { id: e, source: t.source, target: t.target });
        proof {
            assert forall|x: EntityId| #[trigger] result@.is_exist(x) implies exists|e2: EdgeId| on_simple_path(g@, directed, l, rr, e2) && dep_reach(g@, e2, x) by {
                if !r0.is_exist(x) && x != e {
                    if r1.is_exist(x) {
                        match src {
                            PointeeV::EntityId(y) => lemma_dep_reach_prepend(g@, e, y, x),
                            PointeeV::Path(_, _) => {},
                        }
                    } else if r2.is_exist(x) {
                        match tgt {
                            PointeeV::EntityId(y) => lemma_dep_reach_prepend(g@, e, y, x),
                            PointeeV::Path(_, _) => {},
                        }
                    }
                    assert(on_simple_path(g@, directed, l, rr, e) && dep_reach(g@, e, x));
                } else if !r0.is_exist(x) {
                    assert(on_simple_path(g@, directed, l, rr, e) && dep_reach(g@, e, x));
                }
            }
        }
        i = i + 1;
    }
    proof {
        assert forall|e: EdgeId|
            on_simple_path(g@, directed, l, rr, e) && #[trigger] rebuildable(g@, PointeeV::EntityId(e), rebuild_depth(g@) + 1)
            implies result@.edges.contains_key(e) by {
            assert(found@.contains(e));
            let k = choose|k: int| 0 <= k < found@.len() && found@[k] == e;
        }
    }
    result
}

/// All simple undirected paths from `lhs` to `rhs`, packed into one
/// sub-graph: the edges on at least one path, with their endpoints.
/// Direction is ignored in the walk; each edge keeps its own source and
/// target. "Simple": no pointee twice on one path; parallel edges give
/// distinct paths. Where `lhs == rhs` the result holds `lhs` alone; where
/// no path exists, it is empty.
///
/// Endpoints that are edges or hyperedges are rebuilt first, their own
/// endpoints or members before them, down to a depth of the number of
/// ids of `g`; a path endpoint adds nothing, so an edge that needs one
/// is left out unless its entity was added otherwise. The graph must
/// not hold an edge or hyperedge that reaches itself through endpoints
/// and members: the rebuilding would never end.
pub fn undirected_paths(g: &Graph, lhs: NodeId, rhs: NodeId) -> (r: Graph)
    requires
        g.inv(),
        dep_acyclic(g@),
    ensures
        r.inv(),
        is_subgraph(r@, g@),
        lhs == rhs ==> r@ == singleton(g@, lhs),
        lhs != rhs ==> forall|e: EdgeId|
            on_simple_path(g@, false, PointeeV::EntityId(lhs), PointeeV::EntityId(rhs), e)
                && #[trigger] rebuildable(g@, PointeeV::EntityId(e), rebuild_depth(g@) + 1)
                ==> r@.edges.contains_key(e),
        lhs != rhs ==> forall|x: EntityId| #[trigger] r@.is_exist(x) ==> exists|e: EdgeId|
            on_simple_path(g@, false, PointeeV::EntityId(lhs), PointeeV::EntityId(rhs), e) && dep_reach(g@, e, x),
        lhs != rhs ==> forall|e: EdgeId|
            on_simple_path(g@, false, PointeeV::EntityId(lhs), PointeeV::EntityId(rhs), e) && #[trigger] ids_only_below(g@, e)
                ==> r@.edges.contains_key(e),
{
    let r = paths_subgraph(g, lhs, rhs, false);
    proof {
        law_well_formed(g);
        assert forall|e: EdgeId|
            on_simple_path(g@, false, PointeeV::EntityId(lhs), PointeeV::EntityId(rhs), e) && #[trigger] ids_only_below(g@, e)
            implies r@.edges.contains_key(e) by {
            law_ids_only_rebuildable(g@, e);
        }
    }
    r
}

/// All simple directed paths from `lhs` to `rhs` (each edge walked from
/// source to target only), packed into one sub-graph as
/// [`undirected_paths`] does. Hyperedges are not walked. Where
/// `lhs == rhs` the result holds `lhs` alone; where no path exists, it
/// is empty.
pub fn directed_paths(g: &Graph, lhs: NodeId, rhs: NodeId) -> (r: Graph)
    requires
        g.inv(),
        dep_acyclic(g@),
    ensures
        r.inv(),
        is_subgraph(r@, g@),
        lhs == rhs ==> r@ == singleton(g@, lhs),
        lhs != rhs ==> forall|e: EdgeId|
            on_simple_path(g@, true, PointeeV::EntityId(lhs), PointeeV::EntityId(rhs), e)
                && #[trigger] rebuildable(g@, PointeeV::EntityId(e), rebuild_depth(g@) + 1)
                ==> r@.edges.contains_key(e),
        lhs != rhs ==> forall|x: EntityId| #[trigger] r@.is_exist(x) ==> exists|e: EdgeId|
            on_simple_path(g@, true, PointeeV::EntityId(lhs), PointeeV::EntityId(rhs), e) && dep_reach(g@, e, x),
        lhs != rhs ==> forall|e: EdgeId|
            on_simple_path(g@, true, PointeeV::EntityId(lhs), PointeeV::EntityId(rhs), e) && #[trigger] ids_only_below(g@, e)
                ==> r@.edges.contains_key(e),
{
    let r = paths_subgraph(g, lhs, rhs, true);
    proof {
        law_well_formed(g);
        assert forall|e: EdgeId|
            on_simple_path(g@, true, PointeeV::EntityId(lhs), PointeeV::EntityId(rhs), e) && #[trigger] ids_only_below(g@, e)
            implies r@.edges.contains_key(e) by {
            law_ids_only_rebuildable(g@, e);
        }
    }
    r
}

} // verus!
