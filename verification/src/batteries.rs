//! Bulk operations built on the public operations of [`Graph`].

use vstd::prelude::*;

use crate::common::object::Object;
use crate::common::patch::Patch;
use crate::db::graph::Graph;
use crate::db::model::GraphV;

verus! {

/// The graph after adding the nodes of the `AddNode` patches `ps`, in
/// order, as `Graph::add_node` adds one: an id that already carries an
/// object leaves the graph as it is.
pub open spec fn add_nodes_spec(g: GraphV, ps: Seq<Patch>) -> GraphV
    decreases ps.len(),
{
    if ps.len() == 0 {
        g
    } else {
        let h = add_nodes_spec(g, ps.drop_last());
        match ps.last() {
            Patch::AddNode { id, obj } => if h.entities.contains_key(id) {
                h
            } else {
                GraphV { entities: h.entities.insert(id, obj@), ..h }
            },
            _ => h,
        }
    }
}

/// Add a node for each object, in order; each records its `AddNode`.
pub fn banch_create(g: &mut Graph, objects: Vec<Object>)
    requires
        old(g).inv(),
    ensures
        final(g).inv(),
        final(g).log().len() == old(g).log().len() + objects@.len(),
        final(g).log().take(old(g).log().len() as int) == old(g).log(),
        forall|k: int| 0 <= k < objects@.len() ==> ((#[trigger] final(g).log()[old(g).log().len() + k]) matches Patch::AddNode { obj, .. }
            && obj == objects@[k]),
        final(g)@ == add_nodes_spec(old(g)@, final(g).log().skip(old(g).log().len() as int)),
{
    let ghost start_v = g@;
    let ghost start = g.log();
    let ghost objs = objects@;
    let n = objects.len();
    let mut rest = objects;
    let mut i: usize = 0;
    while rest.len() > 0
        invariant
            g.inv(),
            i <= objs.len(),
            n == objs.len(),
            rest@ == objs.skip(i as int),
            g.log().len() == start.len() + i,
            g.log().take(start.len() as int) == start,
            forall|k: int| 0 <= k < i ==> ((#[trigger] g.log()[start.len() + k]) matches Patch::AddNode { obj, .. } && obj == objs[k]),
            g@ == add_nodes_spec(start_v, g.log().skip(start.len() as int)),
        decreases rest@.len(),
    {
        let obj = rest.remove(0);
        assert(obj == objs[i as int]);
        let ghost before = g.log();
        let ghost before_v = g@;
        let ghost o = obj;
        let id = g.add_node(obj);
        proof {
            assert(g.log().skip(start.len() as int).drop_last() =~= before.skip(start.len() as int));
            assert(g.log().skip(start.len() as int).last() == Patch::AddNode { id, obj: o });
            assert(g.log().take(start.len() as int) =~= start) by {
                assert forall|m: int| 0 <= m < start.len() implies g.log()[m] == start[m] by {
                    assert(before.take(start.len() as int)[m] == before[m]);
                }
            }
            assert forall|k: int| 0 <= k < i + 1 implies ((#[trigger] g.log()[start.len() + k]) matches Patch::AddNode { obj, .. } && obj == objs[k]) by {
                if k < i {
                    assert(g.log()[start.len() + k] == before[start.len() + k]);
                }
            }
        }
        i = i + 1;
        assert(rest@ =~= objs.skip(i as int));
    }
    assert(objs.skip(i as int).len() == 0);
}

} // verus!
