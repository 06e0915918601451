//! The cascade: after something was removed or changed, drop every
//! edge and every hyperedge membership that no longer resolves, and
//! every hyperedge left without members, repeatedly, until everything
//! left resolves.

use vstd::prelude::*;

use crate::common::global_path::PointeeV;
use crate::common::ids::{EdgeId, EntityId, HyperedgeId};
use crate::common::pointee_set::PointeeSet;
use crate::db::graph::queries::keys_of;
use crate::db::graph::Graph;
use crate::db::model::{lemma_clean_wf, lemma_strip, GraphV};

verus! {

broadcast use {vstd::std_specs::hash::group_hash_axioms, vstd::seq_lib::group_seq_properties};

impl Graph {
    /// Whether the edge `e` has an endpoint that does not resolve.
    fn edge_dangles(&self, e: &EdgeId) -> (b: bool)
        ensures
            b == self@.dangling_edge(*e),
    {
        match self.edges.get(e) {
            Some(pair) => !self.is_pointee_exist(&pair.0) || !self.is_pointee_exist(&pair.1),
            None => false,
        }
    }

    /// The edges with an endpoint that does not resolve, each once.
    fn dangling_edges(&self) -> (r: Vec<EdgeId>)
        ensures
            r@.no_duplicates(),
            forall|e: EdgeId| r@.contains(e) <==> self@.dangling_edge(e),
    {
        let ks = keys_of(&self.edges);
        let mut out: Vec<EdgeId> = Vec::new();
        let mut i: usize = 0;
        while i < ks.len()
            invariant
                i <= ks@.len(),
                ks@.no_duplicates(),
                ks@.to_set() == self.edges@.dom(),
                out@.no_duplicates(),
                forall|x: EdgeId| out@.contains(x) <==> (exists|k: int| 0 <= k < i && ks@[k] == x) && self@.dangling_edge(x),
            decreases ks@.len() - i,
        {
            let e = ks[i];
            if self.edge_dangles(&e) {
                proof {
                    assert(!out@.contains(e)) by {
                        if out@.contains(e) {
                            let k = choose|k: int| 0 <= k < i && ks@[k] == e;
                            assert(ks@[k] == ks@[i as int]);
                        }
                    }
                }
                out.push(e);
            }
            i = i + 1;
            proof {
                assert forall|x: EdgeId| out@.contains(x) <==> (exists|k: int| 0 <= k < i && ks@[k] == x) && self@.dangling_edge(x) by {
                    if x == e {
                        assert(ks@[i - 1] == e);
                    }
                }
            }
        }
        proof {
            assert forall|x: EdgeId| out@.contains(x) <==> self@.dangling_edge(x) by {
                if self@.dangling_edge(x) {
                    assert(ks@.to_set().contains(x));
                    let k = choose|k: int| 0 <= k < ks@.len() && ks@[k] == x;
                }
            }
        }
        out
    }

    /// Whether some edge or hyperedge refers to a pointee that does not
    /// resolve.
    pub(crate) fn has_dangling(&self) -> (b: bool)
        ensures
            b == self@.has_dangling(),
    {
        let dead = self.dangling_edges();
        if dead.len() > 0 {
            assert(self@.dangling_edge(dead@[0]));
            return true;
        }
        let hs = keys_of(&self.hyperedges);
        let mut i: usize = 0;
        while i < hs.len()
            invariant
                i <= hs@.len(),
                hs@.to_set() == self.hyperedges@.dom(),
                forall|k: int, p: PointeeV| 0 <= k < i ==> !#[trigger] self@.dangling_member(hs@[k], p),
            decreases hs@.len() - i,
        {
            let h = hs[i];
            let members = self.hyperedges.get(&h).unwrap();
            let missing = self.select_pointees(members, false);
            if !missing.is_empty() {
                let n = missing.len();
                proof {
                    let p = missing.seq()[0];
                    assert(missing@.contains(p));
                    assert(self@.dangling_member(h, p));
                }
                return true;
            }
            proof {
                assert forall|p: PointeeV| !self@.dangling_member(h, p) by {
                    if self@.dangling_member(h, p) {
                        assert(missing@.contains(p));
                    }
                }
            }
            i = i + 1;
        }
        proof {
            assert forall|e: EdgeId| !self@.dangling_edge(e) by {
                if self@.dangling_edge(e) {
                    assert(dead@.contains(e));
                }
            }
            assert forall|h: HyperedgeId, p: PointeeV| !self@.dangling_member(h, p) by {
                if self@.dangling_member(h, p) {
                    assert(hs@.to_set().contains(h));
                    let k = choose|k: int| 0 <= k < hs@.len() && hs@[k] == h;
                    assert(!self@.dangling_member(hs@[k], p));
                }
            }
        }
        false
    }
    /// One round of the cascade: drop every edge with an endpoint that
    /// does not resolve, every member that does not resolve, every
    /// hyperedge left without members, and the objects attached to what
    /// was dropped. What resolves is decided on the graph before the
    /// round.
    fn strip_once(&mut self)
        ensures
            final(self)@ == old(self)@.strip(),
            final(self).log() == old(self).log(),
            final(self).is_logged() == old(self).is_logged(),
    {
        let ghost g = self@;
        let dead = self.dangling_edges();
        let hs = keys_of(&self.hyperedges);
        let n = hs.len();
        let mut lives: Vec<PointeeSet> = Vec::new();
        let mut i: usize = 0;
        while i < n
            invariant
                n == hs@.len(),
                i <= n,
                self@ == g,
                hs@.to_set() == self.hyperedges@.dom(),
                lives@.len() == i,
                forall|m: int| 0 <= m < i ==> (#[trigger] lives@[m])@ == g.live_members(hs@[m]),
            decreases n - i,
        {
            let h = hs[i];
            assert(hs@.contains(h));
            let members = self.hyperedges.get(&h).unwrap();
            let live = self.select_pointees(members, true);
            assert(live@ =~= g.live_members(h));
            lives.push(live);
            i = i + 1;
        }
        let ghost e0 = self.entities@;
        let ghost d0 = self.edges@;
        let ghost h0 = self.hyperedges@;
        let mut j: usize = 0;
        while j < dead.len()
            invariant
                j <= dead@.len(),
                self.edges@ == d0.remove_keys(dead@.take(j as int).to_set()),
                self.entities@ == e0.remove_keys(dead@.take(j as int).to_set()),
                self.hyperedges@ == h0,
                self.log() == old(self).log(),
                self.is_logged() == old(self).is_logged(),
            decreases dead@.len() - j,
        {
            let e = dead[j];
            self.edges.remove(&e);
            self.entities.remove(&e);
            proof {
                assert(dead@.take(j + 1) =~= dead@.take(j as int).push(e));
                assert(dead@.take(j + 1).to_set() =~= dead@.take(j as int).to_set().insert(e));
                assert(self.edges@ =~= d0.remove_keys(dead@.take(j + 1).to_set()));
                assert(self.entities@ =~= e0.remove_keys(dead@.take(j + 1).to_set()));
            }
            j = j + 1;
        }
        assert(dead@.take(dead@.len() as int) =~= dead@);
        let ghost e1 = self.entities@;
        assert(g.hyperedges.dom() =~= h0.dom());
        let mut k: usize = n;
        while k > 0
            invariant
                n == hs@.len(),
                k <= n,
                hs@.no_duplicates(),
                hs@.to_set() == h0.dom(),
                g.hyperedges.dom() == h0.dom(),
                lives@.len() == k,
                forall|m: int| 0 <= m < k ==> (#[trigger] lives@[m])@ == g.live_members(hs@[m]),
                self.edges@ == d0.remove_keys(dead@.to_set()),
                self.log() == old(self).log(),
                self.is_logged() == old(self).is_logged(),
                forall|m: int| k <= m < n ==> {
                    let h = #[trigger] hs@[m];
                    &&& (self.hyperedges@.contains_key(h) <==> !g.dead_hyperedge(h))
                    &&& (self.hyperedges@.contains_key(h) ==> self.hyperedges@[h]@ == g.live_members(h))
                    &&& (self.entities@.contains_key(h) <==> e1.contains_key(h) && !g.dead_hyperedge(h))
                },
                forall|m: int| 0 <= m < k ==> {
                    let h = #[trigger] hs@[m];
                    &&& self.hyperedges@.contains_key(h)
                    &&& self.hyperedges@[h] == h0[h]
                    &&& self.entities@.contains_key(h) == e1.contains_key(h)
                },
                forall|x: HyperedgeId| !hs@.contains(x) ==> !self.hyperedges@.contains_key(x)
                    && self.entities@.contains_key(x) == e1.contains_key(x),
                forall|x: EntityId| #[trigger] self.entities@.contains_key(x) ==> e1.contains_key(x) && self.entities@[x] == e1[x],
            decreases k,
        {
            k = k - 1;
            let h = hs[k];
            let live = lives.pop().unwrap();
            let ghost before_h = self.hyperedges@;
            let ghost before_e = self.entities@;
            assert(hs@.contains(h));
            assert(g.hyperedges.contains_key(h));
            if live.is_empty() {
                self.hyperedges.remove(&h);
                self.entities.remove(&h);
            } else {
                self.hyperedges.insert(h, live);
            }
            proof {
                assert forall|m: int| 0 <= m < n && m != k implies #[trigger] hs@[m] != h by {
                    assert(hs@[m] != hs@[k as int]);
                }
            }
        }
        proof {
            assert forall|x: EntityId| #[trigger] dead@.to_set().contains(x) <==> g.dangling_edge(x) by {
                if dead@.to_set().contains(x) {
                    assert(dead@.contains(x));
                }
            }
            assert forall|x: HyperedgeId| hs@.contains(x) <==> h0.contains_key(x) by {
                assert(hs@.to_set().contains(x) == hs@.contains(x));
            }
            let s = g.strip();
            assert(self@.edges =~= s.edges);
            assert forall|x: EntityId| self.entities@.contains_key(x) <==> s.entities.contains_key(x) by {
                if hs@.contains(x) {
                    let m = choose|m: int| 0 <= m < n && hs@[m] == x;
                }
            }
            assert(self@.entities =~= s.entities);
            assert forall|x: HyperedgeId| self.hyperedges@.contains_key(x) <==> s.hyperedges.contains_key(x) by {
                if hs@.contains(x) {
                    let m = choose|m: int| 0 <= m < n && hs@[m] == x;
                }
            }
            assert forall|x: HyperedgeId| self.hyperedges@.contains_key(x) implies self.hyperedges@[x]@ == s.hyperedges[x] by {
                if hs@.contains(x) {
                    let m = choose|m: int| 0 <= m < n && hs@[m] == x;
                }
            }
            assert(self@.hyperedges =~= s.hyperedges);
        }
    }
    /// The cascade: rounds until everything left resolves.
    pub(crate) fn cascade(&mut self)
        requires
            old(self)@.finite(),
            old(self)@.hyperedges_nonempty(),
        ensures
            final(self)@ == old(self)@.clean(),
            final(self)@.wf(),
            final(self).log() == old(self).log(),
            final(self).is_logged() == old(self).is_logged(),
    {
        let ghost target = self@.clean();
        let ghost mut fuel: nat = self@.structure_count() + 1;
        proof {
            lemma_clean_wf(self@);
        }
        loop
            invariant
                self@.finite(),
                self@.hyperedges_nonempty(),
                fuel >= self@.structure_count() + if self@.has_dangling() { 1nat } else { 0nat },
                self@.clean_fuel(fuel) == target,
                target == old(self)@.clean(),
                target.wf(),
                self.log() == old(self).log(),
                self.is_logged() == old(self).is_logged(),
            ensures
                self@ == target,
            decreases fuel,
        {
            if !self.has_dangling() {
                break;
            }
            proof {
                lemma_strip(self@);
            }
            self.strip_once();
            proof {
                fuel = (fuel - 1) as nat;
            }
        }
    }
}

} // verus!
