//! A finite set of pointees: the members of a hyperedge.

use vstd::prelude::*;

use crate::common::global_path::{Pointee, PointeeV};

verus! {

/// A set of [`Pointee`]s, each held once.
#[derive(Debug)]
pub struct PointeeSet {
    items: Vec<Pointee>,
}

/// The values of a list of pointees.
pub open spec fn pointee_views(s: Seq<Pointee>) -> Seq<PointeeV> {
    s.map_values(|p: Pointee| p@)
}

proof fn lemma_push_to_set<A>(s: Seq<A>, x: A)
    ensures
        s.push(x).to_set() == s.to_set().insert(x),
{
    assert forall|a: A| s.push(x).to_set().contains(a) <==> s.to_set().insert(x).contains(a) by {
        if s.push(x).contains(a) {
            let k = choose|k: int| 0 <= k < s.push(x).len() && s.push(x)[k] == a;
            if k < s.len() {
                assert(s[k] == a);
            }
        }
        if s.contains(a) {
            let k = choose|k: int| 0 <= k < s.len() && s[k] == a;
            assert(s.push(x)[k] == a);
        }
        if a == x {
            assert(s.push(x)[s.len() as int] == x);
        }
    }
    assert(s.push(x).to_set() =~= s.to_set().insert(x));
}

impl View for PointeeSet {
    type V = Set<PointeeV>;

    closed spec fn view(&self) -> Set<PointeeV> {
        pointee_views(self.items@).to_set()
    }
}

impl PointeeSet {
    #[verifier::type_invariant]
    closed spec fn distinct(&self) -> bool {
        pointee_views(self.items@).no_duplicates()
    }

    /// The members in storage order.
    pub closed spec fn seq(&self) -> Seq<PointeeV> {
        pointee_views(self.items@)
    }

    proof fn lemma_seq(&self)
        requires
            self.seq().no_duplicates(),
        ensures
            self@.finite(),
            self@.len() == self.seq().len(),
            self.seq().to_set() == self@,
    {
        self.seq().unique_seq_to_set();
    }

    /// An empty set.
    pub fn new() -> (s: Self)
        ensures
            s@ == Set::<PointeeV>::empty(),
    {
        let s = PointeeSet { items: Vec::new() };
        assert(s@ =~= Set::<PointeeV>::empty());
        s
    }

    /// The number of members.
    pub fn len(&self) -> (n: usize)
        ensures
            n == self@.len(),
            self@.finite(),
            n == self.seq().len(),
            self.seq().no_duplicates(),
            self.seq().to_set() == self@,
    {
        proof {
            use_type_invariant(self);
            self.lemma_seq();
        }
        self.items.len()
    }

    /// `true` if the set has no member.
    pub fn is_empty(&self) -> (b: bool)
        ensures
            b == (self@.len() == 0),
            b == (self@ == Set::<PointeeV>::empty()),
            self@.finite(),
    {
        proof {
            use_type_invariant(self);
            self.lemma_seq();
            if self.items@.len() > 0 {
                assert(self@.contains(self.seq()[0]));
            } else {
                assert(self@ =~= Set::<PointeeV>::empty());
            }
        }
        self.items.len() == 0
    }

    /// The member at storage position `i`.
    pub fn get(&self, i: usize) -> (p: &Pointee)
        requires
            i < self.seq().len(),
        ensures
            p@ == self.seq()[i as int],
            self@.contains(p@),
    {
        &self.items[i]
    }

    fn position(&self, p: &Pointee) -> (r: Option<usize>)
        ensures
            match r {
                Some(i) => i < self.items@.len() && self.items@[i as int]@ == p@,
                None => !self@.contains(p@),
            },
    {
        let mut i: usize = 0;
        while i < self.items.len()
            invariant
                i <= self.items@.len(),
                forall|k: int| 0 <= k < i ==> (#[trigger] self.items@[k])@ != p@,
            decreases self.items@.len() - i,
        {
            if self.items[i].same_as(p) {
                return Some(i);
            }
            i = i + 1;
        }
        assert(!self@.contains(p@)) by {
            if self@.contains(p@) {
                let k = choose|k: int| 0 <= k < self.seq().len() && self.seq()[k] == p@;
                assert(self.items@[k]@ == p@);
            }
        }
        None
    }

    /// Whether `p` is a member.
    pub fn contains(&self, p: &Pointee) -> (b: bool)
        ensures
            b == self@.contains(p@),
    {
        match self.position(p) {
            Some(i) => {
                assert(self.seq()[i as int] == p@);
                true
            },
            None => false,
        }
    }

    /// Add `p`; `true` if it was not a member before.
    pub fn insert(&mut self, p: Pointee) -> (b: bool)
        ensures
            final(self)@ == old(self)@.insert(p@),
            b == !old(self)@.contains(p@),
    {
        proof { use_type_invariant(&*self); }
        if self.contains(&p) {
            assert(self@.insert(p@) =~= self@);
            return false;
        }
        let ghost before = self.seq();
        let ghost pv = p@;
        let mut items = Vec::new();
        std::mem::swap(&mut items, &mut self.items);
        items.push(p);
        proof {
            assert(pointee_views(items@) =~= before.push(pv));
            assert(!before.contains(pv));
            assert(pointee_views(items@).no_duplicates()) by {
                let s = pointee_views(items@);
                assert forall|a: int, b: int| 0 <= a < s.len() && 0 <= b < s.len() && a != b implies s[a] != s[b] by {
                    if a < before.len() && b < before.len() {
                    } else if a == before.len() {
                        assert(before[b] == s[b]);
                    } else {
                        assert(before[a] == s[a]);
                    }
                }
            }
            lemma_push_to_set(before, pv);
        }
        self.items = items;
        true
    }

    /// Remove `p`; `true` if it was a member.
    pub fn remove(&mut self, p: &Pointee) -> (b: bool)
        ensures
            final(self)@ == old(self)@.remove(p@),
            b == old(self)@.contains(p@),
    {
        proof { use_type_invariant(&*self); }
        match self.position(p) {
            None => {
                assert(self@.remove(p@) =~= self@);
                false
            },
            Some(i) => {
                let ghost before = self.seq();
                let mut items = Vec::new();
                std::mem::swap(&mut items, &mut self.items);
                items.remove(i);
                proof {
                    let after = pointee_views(items@);
                    assert(after =~= before.remove(i as int));
                    assert(before[i as int] == p@);
                    assert(after.no_duplicates()) by {
                        assert forall|a: int, b: int| 0 <= a < after.len() && 0 <= b < after.len() && a != b implies after[a] != after[b] by {
                            let aa = if a < i { a } else { a + 1 };
                            let bb = if b < i { b } else { b + 1 };
                            assert(after[a] == before[aa] && after[b] == before[bb]);
                        }
                    }
                    assert(after.to_set() =~= before.to_set().remove(p@)) by {
                        assert forall|x: PointeeV| after.to_set().contains(x) <==> before.to_set().remove(p@).contains(x) by {
                            if after.to_set().contains(x) {
                                let k = choose|k: int| 0 <= k < after.len() && after[k] == x;
                                let kk = if k < i { k } else { k + 1 };
                                assert(before[kk] == x);
                                assert(kk != i);
                            }
                            if before.to_set().remove(p@).contains(x) {
                                let k = choose|k: int| 0 <= k < before.len() && before[k] == x;
                                assert(k != i);
                                let kk = if k < i { k } else { k - 1 };
                                assert(after[kk] == x);
                            }
                        }
                    }
                }
                self.items = items;
                true
            },
        }
    }

    /// A set holding the given pointees (later duplicates are dropped).
    pub fn from_vec(v: Vec<Pointee>) -> (s: Self)
        ensures
            s@ == pointee_views(v@).to_set(),
    {
        let mut s = PointeeSet::new();
        let mut i: usize = 0;
        while i < v.len()
            invariant
                i <= v@.len(),
                s@ == pointee_views(v@.take(i as int)).to_set(),
            decreases v@.len() - i,
        {
            s.insert(v[i].clone());
            proof {
                assert(pointee_views(v@.take(i + 1)) =~= pointee_views(v@.take(i as int)).push(v@[i as int]@));
                lemma_push_to_set(pointee_views(v@.take(i as int)), v@[i as int]@);
            }
            i = i + 1;
        }
        assert(v@.take(v@.len() as int) =~= v@);
        s
    }

    /// The members, each once, in storage order.
    pub fn into_vec(self) -> (v: Vec<Pointee>)
        ensures
            pointee_views(v@) == self.seq(),
            pointee_views(v@).no_duplicates(),
            pointee_views(v@).to_set() == self@,
    {
        proof {
            use_type_invariant(&self);
            self.lemma_seq();
        }
        self.items
    }

    /// Whether two sets have the same members.
    pub fn same_as(&self, other: &Self) -> (b: bool)
        ensures
            b == (self@ == other@),
    {
        proof {
            use_type_invariant(self);
            use_type_invariant(other);
            self.lemma_seq();
            other.lemma_seq();
        }
        if self.items.len() != other.items.len() {
            return false;
        }
        let mut i: usize = 0;
        while i < self.items.len()
            invariant
                i <= self.seq().len(),
                self.seq().len() == other.seq().len(),
                self@.len() == self.seq().len(),
                other@.len() == other.seq().len(),
                self.seq().to_set() == self@,
                other@.finite(),
                self@.finite(),
                forall|k: int| 0 <= k < i ==> other@.contains(#[trigger] self.seq()[k]),
            decreases self.seq().len() - i,
        {
            if !other.contains(&self.items[i]) {
                assert(self@.contains(self.seq()[i as int]));
                return false;
            }
            i = i + 1;
        }
        assert(self@.subset_of(other@)) by {
            assert forall|x: PointeeV| self@.contains(x) implies other@.contains(x) by {
                let k = choose|k: int| 0 <= k < self.seq().len() && self.seq()[k] == x;
            }
        }
        assert(self@ =~= other@) by {
            if !(self@ =~= other@) {
                let x = choose|x: PointeeV| other@.contains(x) && !self@.contains(x);
                vstd::set_lib::lemma_len_subset(self@.insert(x), other@);
            }
        }
        true
    }
}

impl Clone for PointeeSet {
    fn clone(&self) -> (r: Self)
        ensures
            r@ == self@,
    {
        proof { use_type_invariant(self); }
        let mut items: Vec<Pointee> = Vec::new();
        let mut i: usize = 0;
        while i < self.items.len()
            invariant
                i <= self.items@.len(),
                items@.len() == i,
                forall|k: int| 0 <= k < i ==> (#[trigger] items@[k])@ == self.items@[k]@,
            decreases self.items@.len() - i,
        {
            items.push(self.items[i].clone());
            i = i + 1;
        }
        assert(pointee_views(items@) =~= pointee_views(self.items@));
        PointeeSet { items }
    }
}

impl PartialEq for PointeeSet {
    fn eq(&self, other: &Self) -> (r: bool) {
        self.same_as(other)
    }
}

impl vstd::std_specs::cmp::PartialEqSpecImpl for PointeeSet {
    open spec fn obeys_eq_spec() -> bool {
        true
    }

    open spec fn eq_spec(&self, other: &Self) -> bool {
        self@ == other@
    }
}

} // verus!
