//! Finite sets of dataflow facts, kept as vectors without repetition.

use crate::framework::L;
use vstd::prelude::*;

verus! {

/// The views of the elements of `s`, in order.
pub open spec fn views<T: View>(s: Seq<T>) -> Seq<T::V> {
    s.map_values(|t: T| t@)
}

/// The views of a concatenation are the concatenated views.
pub proof fn lemma_views_concat<T: View>(a: Seq<T>, b: Seq<T>)
    ensures
        views(a + b) == views(a) + views(b),
{
    assert(views(a + b) =~= views(a) + views(b));
}

/// A finite set of facts. Two facts are the same member when their views are
/// equal; the view of the set is the set of the views of its members.
#[derive(Debug)]
pub struct FactSet<T: L> {
    items: Vec<T>,
}

impl<T: L> View for FactSet<T> {
    type V = Set<T::V>;

    closed spec fn view(&self) -> Set<T::V> {
        views(self.items@).to_set()
    }
}

impl<T: L> FactSet<T> {
    #[verifier::type_invariant]
    spec fn distinct(self) -> bool {
        views(self.items@).no_duplicates()
    }

    /// The view of a fact set is finite.
    pub proof fn lemma_finite(self)
        ensures
            self@.finite(),
    {
        vstd::seq_lib::seq_to_set_is_finite(views(self.items@));
    }

    /// The empty set.
    pub fn new() -> (s: Self)
        ensures
            s@ == Set::<T::V>::empty(),
    {
        let s = FactSet { items: Vec::new() };
        assert(s@ =~= Set::<T::V>::empty());
        s
    }

    /// The set with the one member `x`.
    pub fn singleton(x: T) -> (s: Self)
        ensures
            s@ == set![x@],
    {
        let mut s = FactSet::new();
        s.insert(x);
        assert(s@ =~= set![x@]);
        s
    }

    /// The number of members.
    pub fn len(&self) -> (n: usize)
        ensures
            n == self@.len(),
    {
        proof {
            use_type_invariant(self);
            views(self.items@).unique_seq_to_set();
        }
        self.items.len()
    }

    /// Whether the set has no member.
    pub fn is_empty(&self) -> (b: bool)
        ensures
            b == (self@ == Set::<T::V>::empty()),
    {
        proof {
            if self.items.len() > 0 {
                assert(views(self.items@)[0] == self.items[0]@);
                assert(self@.contains(self.items[0]@));
            } else {
                assert(self@ =~= Set::<T::V>::empty());
            }
        }
        self.items.len() == 0
    }

    /// The members, each once.
    pub fn members(&self) -> (v: &Vec<T>)
        ensures
            views(v@).to_set() == self@,
            views(v@).no_duplicates(),
    {
        proof {
            use_type_invariant(self);
        }
        &self.items
    }

    /// The members, each once.
    pub fn into_vec(self) -> (v: Vec<T>)
        ensures
            views(v@).to_set() == self@,
            views(v@).no_duplicates(),
    {
        proof {
            use_type_invariant(&self);
        }
        self.items
    }

    /// The place of the member with the view of `x`, if there is one.
    fn position(&self, x: &T) -> (at: Option<usize>)
        ensures
            at is Some == self@.contains(x@),
            at matches Some(i) ==> i < self.items.len() && self.items[i as int]@ == x@,
    {
        let mut i: usize = 0;
        while i < self.items.len()
            invariant
                i <= self.items.len(),
                forall|j: int| 0 <= j < i ==> self.items[j]@ != x@,
            decreases self.items.len() - i,
        {
            if self.items[i].same(x) {
                assert(views(self.items@)[i as int] == x@);
                return Some(i);
            }
            i = i + 1;
        }
        assert forall|j: int| 0 <= j < views(self.items@).len() implies views(self.items@)[j]
            != x@ by {
            assert(views(self.items@)[j] == self.items[j]@);
        }
        None
    }

    /// Whether `x` is a member.
    pub fn contains(&self, x: &T) -> (b: bool)
        ensures
            b == self@.contains(x@),
    {
        self.position(x).is_some()
    }

    /// Adds `x`; returns whether it was not yet a member.
    pub fn insert(&mut self, x: T) -> (fresh: bool)
        ensures
            final(self)@ == old(self)@.insert(x@),
            fresh == !old(self)@.contains(x@),
    {
        if self.contains(&x) {
            assert(self@.insert(x@) =~= self@);
            false
        } else {
            proof {
                use_type_invariant(&*self);
                assert(views(self.items@.push(x)) =~= views(self.items@).push(x@));
                views(self.items@).lemma_push_to_set_commute(x@);
            }
            let mut taken = FactSet { items: Vec::new() };
            core::mem::swap(self, &mut taken);
            let mut items = taken.items;
            items.push(x);
            *self = FactSet { items };
            true
        }
    }

    /// Removes `x`; returns whether it was a member.
    pub fn remove(&mut self, x: &T) -> (present: bool)
        ensures
            final(self)@ == old(self)@.remove(x@),
            present == old(self)@.contains(x@),
    {
        match self.position(x) {
            None => {
                assert(self@.remove(x@) =~= self@);
                false
            },
            Some(i) => {
                proof {
                    use_type_invariant(&*self);
                    let before = views(self.items@);
                    let after = views(self.items@.remove(i as int));
                    assert(after =~= before.remove(i as int));
                    assert(before[i as int] == x@);
                    assert forall|v: T::V| after.to_set().contains(v) == before.to_set().remove(
                        x@,
                    ).contains(v) by {
                        if after.contains(v) {
                            let k = choose|k: int| 0 <= k < after.len() && after[k] == v;
                            if k < i {
                                assert(before[k] == v);
                            } else {
                                assert(before[k + 1] == v);
                            }
                        }
                        if before.contains(v) && v != x@ {
                            let k = choose|k: int| 0 <= k < before.len() && before[k] == v;
                            if k < i {
                                assert(after[k] == v);
                            } else {
                                assert(after[k - 1] == v);
                            }
                        }
                    }
                    assert(after.to_set() =~= before.to_set().remove(x@));
                }
                let mut taken = FactSet { items: Vec::new() };
                core::mem::swap(self, &mut taken);
                let mut items = taken.items;
                let _ = items.remove(i);
                *self = FactSet { items };
                true
            },
        }
    }

    /// Whether every member of `self` is a member of `other`.
    pub fn is_subset(&self, other: &Self) -> (b: bool)
        ensures
            b == self@.subset_of(other@),
    {
        let mut i: usize = 0;
        while i < self.items.len()
            invariant
                i <= self.items.len(),
                forall|j: int| 0 <= j < i ==> other@.contains(self.items[j]@),
            decreases self.items.len() - i,
        {
            if !other.contains(&self.items[i]) {
                assert(views(self.items@)[i as int] == self.items[i as int]@);
                assert(self@.contains(self.items[i as int]@));
                return false;
            }
            i = i + 1;
        }
        assert forall|v: T::V| self@.contains(v) implies other@.contains(v) by {
            let k = choose|k: int| 0 <= k < views(self.items@).len() && views(self.items@)[k] == v;
            assert(views(self.items@)[k] == self.items[k]@);
        }
        true
    }
}

impl<T: L> Clone for FactSet<T> {
    fn clone(&self) -> (r: Self)
        ensures
            r@ == self@,
    {
        let mut items: Vec<T> = Vec::new();
        let mut i: usize = 0;
        while i < self.items.len()
            invariant
                i <= self.items.len(),
                items.len() == i,
                forall|j: int| 0 <= j < i ==> items[j]@ == self.items[j]@,
            decreases self.items.len() - i,
        {
            items.push(self.items[i].duplicate());
            i = i + 1;
        }
        proof {
            use_type_invariant(self);
            assert(views(items@) =~= views(self.items@));
        }
        FactSet { items }
    }
}

/// Two fact sets are equal when they have the same members, in whatever
/// order they were added.
impl<T: L> PartialEq for FactSet<T> {
    fn eq(&self, other: &Self) -> (r: bool) {
        let r = self.is_subset(other) && other.is_subset(self);
        assert(r == (self@ =~= other@));
        r
    }
}

impl<T: L> vstd::std_specs::cmp::PartialEqSpecImpl for FactSet<T> {
    open spec fn obeys_eq_spec() -> bool {
        true
    }

    open spec fn eq_spec(&self, other: &Self) -> bool {
        self@ == other@
    }
}

} // verus!
