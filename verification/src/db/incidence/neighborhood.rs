//! Node-side incidence: the pointees an entity is connected to.
//!
//! Algorithms over the public read operations of [`Graph`].

use vstd::prelude::*;

use crate::common::global_path::{Pointee, PointeeV};
use crate::common::ids::EntityId;
use crate::common::pointee_set::{pointee_views, PointeeSet};
use crate::db::errors::EntityNotFoundError;
use crate::db::graph::Graph;
use crate::db::model::GraphV;

verus! {

/// The edge `e` joins `me` to `p`: it leaves `me` for `p`
/// (`outgoing`), or arrives at `me` from `p` (`incoming`; where both
/// directions count, an edge that leaves `me` counts only as leaving).
pub open spec fn edge_links(g: GraphV, e: u128, me: PointeeV, p: PointeeV, outgoing: bool, incoming: bool) -> bool {
    &&& g.edges.contains_key(e)
    &&& (outgoing && g.edges[e].0 == me && g.edges[e].1 == p)
        || (incoming && (outgoing ==> g.edges[e].0 != me) && g.edges[e].1 == me && g.edges[e].0 == p)
}

/// The hyperedge `h` has both `me` and `p`, another pointee, as members.
pub open spec fn hyper_links(g: GraphV, h: u128, me: PointeeV, p: PointeeV) -> bool {
    g.hyperedges.contains_key(h) && p != me && g.hyperedges[h].contains(me) && g.hyperedges[h].contains(p)
}

/// The pointees an edge joins to `id` in the selected directions, and,
/// where `with_hyperedges`, the other members of the hyperedges `id` is
/// a member of.
pub open spec fn linked(g: GraphV, id: EntityId, outgoing: bool, incoming: bool, with_hyperedges: bool) -> Set<PointeeV> {
    Set::new(|p: PointeeV|
        (exists|e: u128| #[trigger] edge_links(g, e, PointeeV::EntityId(id), p, outgoing, incoming))
        || (with_hyperedges && exists|h: u128| #[trigger] hyper_links(g, h, PointeeV::EntityId(id), p)))
}

/// Shared by the three queries: the pointees `linked` describes, each
/// once.
fn collect_linked(g: &Graph, id: &EntityId, outgoing: bool, incoming: bool, with_hyperedges: bool) -> (r: Vec<Pointee>)
    ensures
        pointee_views(r@).no_duplicates(),
        pointee_views(r@).to_set() == linked(g@, *id, outgoing, incoming, with_hyperedges),
{
    let me = Pointee::EntityId(*id);
    let ghost mv = me@;
    let mut out = PointeeSet::new();
    let edges = g.iter_edges();
    let mut i: usize = 0;
    while i < edges.len()
        invariant
            i <= edges@.len(),
            edges@.to_set() == g@.edges.dom(),
            me@ == mv,
            mv == PointeeV::EntityId(*id),
            forall|p: PointeeV| #[trigger] out@.contains(p) <==> exists|k: int| 0 <= k < i && #[trigger] edge_links(g@, edges@[k], mv, p, outgoing, incoming),
        decreases edges@.len() - i,
    {
        let eid = edges[i];
        assert(edges@.to_set().contains(eid));
        match g.edge(&eid) {
            Ok(t) => {
                let is_source = t.source.same_as(&me);
                let is_target = t.target.same_as(&me);
                if outgoing && is_source {
                    out.insert(t.target);
                } else if incoming && is_target && !(outgoing && is_source) {
                    out.insert(t.source);
                }
            },
            Err(_) => {},
        }
        i = i + 1;
        proof {
            assert forall|p: PointeeV| #[trigger] out@.contains(p) <==> exists|k: int| 0 <= k < i && #[trigger] edge_links(g@, edges@[k], mv, p, outgoing, incoming) by {
                if edge_links(g@, eid, mv, p, outgoing, incoming) {
                    assert(edges@[i - 1] == eid);
                }
            }
        }
    }
    let ghost after_edges = out@;
    if with_hyperedges {
        let hs = g.iter_hyperedges();
        let mut j: usize = 0;
        while j < hs.len()
            invariant
                j <= hs@.len(),
                hs@.to_set() == g@.hyperedges.dom(),
                me@ == mv,
                mv == PointeeV::EntityId(*id),
                forall|p: PointeeV| #[trigger] out@.contains(p) <==> after_edges.contains(p)
                    || exists|k: int| 0 <= k < j && #[trigger] hyper_links(g@, hs@[k], mv, p),
            decreases hs@.len() - j,
        {
            let h = hs[j];
            assert(hs@.to_set().contains(h));
            let members = g.hyperedge_members(&h).unwrap();
            if members.contains(&me) {
                let n = members.len();
                let mut m: usize = 0;
                while m < n
                    invariant
                        n == members.seq().len(),
                        members.seq().to_set() == members@,
                        members@ == g@.hyperedges[h],
                        g@.hyperedges.contains_key(h),
                        members@.contains(mv),
                        m <= n,
                        me@ == mv,
                        forall|p: PointeeV| #[trigger] out@.contains(p) <==> after_edges.contains(p)
                            || (exists|k: int| 0 <= k < j && #[trigger] hyper_links(g@, hs@[k], mv, p))
                            || (p != mv && exists|q: int| 0 <= q < m && members.seq()[q] == p),
                    decreases n - m,
                {
                    let x = members.get(m);
                    if !x.same_as(&me) {
                        out.insert(x.clone());
                    }
                    m = m + 1;
                    proof {
                        assert forall|p: PointeeV| #[trigger] out@.contains(p) <==> after_edges.contains(p)
                            || (exists|k: int| 0 <= k < j && #[trigger] hyper_links(g@, hs@[k], mv, p))
                            || (p != mv && exists|q: int| 0 <= q < m && members.seq()[q] == p) by {
                            if p == x@ {
                                assert(members.seq()[m - 1] == p);
                            }
                        }
                    }
                }
                proof {
                    assert forall|p: PointeeV| #[trigger] out@.contains(p) <==> after_edges.contains(p)
                        || exists|k: int| 0 <= k < j + 1 && #[trigger] hyper_links(g@, hs@[k], mv, p) by {
                        if hyper_links(g@, h, mv, p) {
                            assert(members.seq().to_set().contains(p));
                            let q = choose|q: int| 0 <= q < n && members.seq()[q] == p;
                            assert(hs@[j as int] == h);
                        }
                        if p != mv && exists|q: int| 0 <= q < n && members.seq()[q] == p {
                            assert(members.seq().contains(p));
                            assert(hs@[j as int] == h);
                            assert(hyper_links(g@, hs@[j as int], mv, p));
                        }
                    }
                }
            } else {
                proof {
                    assert forall|p: PointeeV| #[trigger] out@.contains(p) <==> after_edges.contains(p)
                        || exists|k: int| 0 <= k < j + 1 && #[trigger] hyper_links(g@, hs@[k], mv, p) by {
                        assert(hs@[j as int] == h);
                    }
                }
            }
            j = j + 1;
        }
        proof {
            assert forall|p: PointeeV| with_hyperedges && (exists|h: u128| #[trigger] hyper_links(g@, h, mv, p))
                implies out@.contains(p) by {
                let h = choose|h: u128| #[trigger] hyper_links(g@, h, mv, p);
                assert(hs@.to_set().contains(h));
                let k = choose|k: int| 0 <= k < hs@.len() && hs@[k] == h;
                assert(hyper_links(g@, hs@[k], mv, p));
            }
        }
    }
    proof {
        assert forall|p: PointeeV| #[trigger] out@.contains(p) == linked(g@, *id, outgoing, incoming, with_hyperedges).contains(p) by {
            if exists|e: u128| #[trigger] edge_links(g@, e, mv, p, outgoing, incoming) {
                let e = choose|e: u128| #[trigger] edge_links(g@, e, mv, p, outgoing, incoming);
                assert(edges@.to_set().contains(e));
                let k = choose|k: int| 0 <= k < edges@.len() && edges@[k] == e;
                assert(edge_links(g@, edges@[k], mv, p, outgoing, incoming));
            }
        }
        assert(out@ =~= linked(g@, *id, outgoing, incoming, with_hyperedges));
    }
    out.into_vec()
}

/// The pointees directly connected to `id`: the other endpoint of every
/// edge incident to it (direction ignored) and the other members of
/// every hyperedge it is a member of; each once.
///
/// Error: `EntityNotFoundError` where `id` is no entity.
pub fn neighbours(g: &Graph, id: &EntityId) -> (r: Result<Vec<Pointee>, EntityNotFoundError>)
    ensures
        match r {
            Ok(v) => g@.is_exist(*id) && pointee_views(v@).no_duplicates()
                && pointee_views(v@).to_set() == linked(g@, *id, true, true, true),
            Err(e) => !g@.is_exist(*id) && e.id == *id,
        },
{
    if !g.is_exist(id) {
        return Err(EntityNotFoundError { id: *id });
    }
    Ok(collect_linked(g, id, true, true, true))
}

/// The targets of the edges leaving `id`, each once. Hyperedges are
/// undirected and not included.
///
/// Error: `EntityNotFoundError` where `id` is no entity.
pub fn out_neighbours(g: &Graph, id: &EntityId) -> (r: Result<Vec<Pointee>, EntityNotFoundError>)
    ensures
        match r {
            Ok(v) => g@.is_exist(*id) && pointee_views(v@).no_duplicates()
                && pointee_views(v@).to_set() == linked(g@, *id, true, false, false),
            Err(e) => !g@.is_exist(*id) && e.id == *id,
        },
{
    if !g.is_exist(id) {
        return Err(EntityNotFoundError { id: *id });
    }
    Ok(collect_linked(g, id, true, false, false))
}

/// The sources of the edges arriving at `id`, each once. Hyperedges
/// are undirected and not included.
///
/// Error: `EntityNotFoundError` where `id` is no entity.
pub fn in_neighbours(g: &Graph, id: &EntityId) -> (r: Result<Vec<Pointee>, EntityNotFoundError>)
    ensures
        match r {
            Ok(v) => g@.is_exist(*id) && pointee_views(v@).no_duplicates()
                && pointee_views(v@).to_set() == linked(g@, *id, false, true, false),
            Err(e) => !g@.is_exist(*id) && e.id == *id,
        },
{
    if !g.is_exist(id) {
        return Err(EntityNotFoundError { id: *id });
    }
    Ok(collect_linked(g, id, false, true, false))
}

} // verus!
