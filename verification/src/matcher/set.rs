//! Sets of mismatches.

use vstd::prelude::*;
use super::{Mismatch, MismatchView};

verus! {

/// What identifies each mismatch of a list.
pub open spec fn views(items: Seq<Mismatch>) -> Seq<MismatchView> {
    items.map_values(|m: Mismatch| m@)
}

/// A set of mismatches, none of them held twice.
#[derive(Debug)]
pub struct MismatchSet {
    items: Vec<Mismatch>,
}

impl View for MismatchSet {
    type V = Set<MismatchView>;

    closed spec fn view(&self) -> Set<MismatchView> {
        views(self.items@).to_set()
    }
}

impl MismatchSet {
    #[verifier::type_invariant]
    spec fn distinct(&self) -> bool {
        views(self.items@).no_duplicates()
    }

    /// The mismatches of the set, in the order in which they came in.
    pub closed spec fn elements(&self) -> Seq<Mismatch> {
        self.items@
    }

    /// The view of the set is what identifies its elements.
    pub proof fn lemma_elements(&self)
        ensures
            views(self.elements()).to_set() == self@,
    {
    }

    /// The set without members.
    pub fn new() -> (r: MismatchSet)
        ensures
            r@ == Set::<MismatchView>::empty(),
            r.elements() == Seq::<Mismatch>::empty(),
    {
        MismatchSet { items: Vec::new() }
    }

    /// The mismatches of the set, each once.
    pub fn items(&self) -> (r: &Vec<Mismatch>)
        ensures
            r@ == self.elements(),
            views(r@).to_set() == self@,
            views(r@).no_duplicates(),
    {
        proof {
            use_type_invariant(self);
        }
        &self.items
    }

    /// The number of mismatches in the set.
    pub fn len(&self) -> (r: usize)
        ensures
            r == self@.len(),
            r == self.elements().len(),
            self@.finite(),
    {
        proof {
            use_type_invariant(self);
            views(self.items@).unique_seq_to_set();
            vstd::seq_lib::seq_to_set_is_finite(views(self.items@));
        }
        self.items.len()
    }

    /// Whether the set has no member.
    pub fn is_empty(&self) -> (r: bool)
        ensures
            r == (self@ == Set::<MismatchView>::empty()),
            r == (self.elements().len() == 0),
    {
        proof {
            if self.items@.len() > 0 {
                assert(views(self.items@)[0] == self.items@[0]@);
                assert(self@.contains(self.items@[0]@));
            } else {
                assert(self@ =~= Set::<MismatchView>::empty());
            }
        }
        self.items.len() == 0
    }

    /// Whether the set holds `m`.
    pub fn contains(&self, m: &Mismatch) -> (r: bool)
        ensures
            r == self@.contains(m@),
    {
        let mut i: usize = 0;
        while i < self.items.len()
            invariant
                i <= self.items.len(),
                forall|k: int| 0 <= k < i ==> self.items@[k]@ != m@,
            decreases self.items.len() - i,
        {
            if self.items[i].same(m) {
                assert(views(self.items@)[i as int] == m@);
                return true;
            }
            i += 1;
        }
        false
    }

    /// Adds `m` to the set; returns whether it was new.
    pub fn insert(&mut self, m: Mismatch) -> (r: bool)
        ensures
            final(self)@ == old(self)@.insert(m@),
            r == !old(self)@.contains(m@),
            final(self).elements() == if r {
                old(self).elements().push(m)
            } else {
                old(self).elements()
            },
    {
        proof {
            use_type_invariant(&*self);
        }
        if self.contains(&m) {
            false
        } else {
            let ghost before = self.items@;
            let mut taken = MismatchSet::new();
            std::mem::swap(self, &mut taken);
            let mut items = taken.items;
            items.push(m);
            proof {
                assert(views(before.push(m)) =~= views(before).push(m@));
            }
            *self = MismatchSet { items };
            proof {
                assert(views(before).push(m@).to_set() =~= views(before).to_set().insert(m@)) by {
                    assert forall|x: MismatchView|
                        views(before).push(m@).contains(x) <==> views(before).contains(x) || x
                            == m@ by {
                        if views(before).contains(x) {
                            let k = choose|k: int| 0 <= k < views(before).len() && views(before)[k] == x;
                            assert(views(before).push(m@)[k] == x);
                        }
                        if x == m@ {
                            assert(views(before).push(m@)[views(before).len() as int] == x);
                        }
                    }
                }
            }
            true
        }
    }
}

} // verus!
