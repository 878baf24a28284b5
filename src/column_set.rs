use vstd::prelude::*;

verus! {

broadcast use vstd::seq::Seq::lemma_push_to_set_commute;

/// A set of column ids, kept as a list.
#[derive(Debug)]
pub struct ColumnSet {
    pub cols: Vec<usize>,
}

impl View for ColumnSet {
    type V = Set<usize>;

    open spec fn view(&self) -> Set<usize> {
        self.cols@.to_set()
    }
}

impl ColumnSet {
    /// The empty set.
    pub fn new() -> (r: ColumnSet)
        ensures
            r@ == Set::<usize>::empty(),
    {
        let r = ColumnSet { cols: Vec::new() };
        proof {
            assert(r@ =~= Set::<usize>::empty());
        }
        r
    }

    /// A copy of the set.
    pub fn duplicate(&self) -> (r: ColumnSet)
        ensures
            r@ == self@,
    {
        let mut r = ColumnSet::new();
        r.extend_from(&self.cols);
        proof {
            assert(r@ =~= self@);
        }
        r
    }

    /// Whether both sets hold the same ids.
    pub fn same_as(&self, other: &ColumnSet) -> (r: bool)
        ensures
            r == (self@ == other@),
    {
        let r = self.is_subset(other) && other.is_subset(self);
        proof {
            if self@ == other@ {
                assert(self@.subset_of(other@));
            }
            if r {
                assert(self@ =~= other@);
            }
        }
        r
    }

    /// Whether `id` is in the set.
    pub fn contains(&self, id: usize) -> (r: bool)
        ensures
            r == self@.contains(id),
    {
        let mut i: usize = 0;
        while i < self.cols.len()
            invariant
                i <= self.cols.len(),
                forall|j: int| 0 <= j < i ==> self.cols@[j] != id,
            decreases self.cols.len() - i,
        {
            if self.cols[i] == id {
                proof {
                    assert(self.cols@.to_set().contains(self.cols@[i as int]));
                }
                return true;
            }
            i += 1;
        }
        false
    }

    /// Adds `id` to the set.
    pub fn insert(&mut self, id: usize)
        ensures
            final(self)@ == old(self)@.insert(id),
    {
        if !self.contains(id) {
            self.cols.push(id);
        } else {
            proof {
                assert(old(self)@.insert(id) =~= old(self)@);
            }
        }
        proof {
            assert(final(self)@ =~= old(self)@.insert(id));
        }
    }

    /// Adds every id of `ids` to the set.
    pub fn extend_from(&mut self, ids: &Vec<usize>)
        ensures
            final(self)@ == old(self)@.union(ids@.to_set()),
    {
        let mut i: usize = 0;
        while i < ids.len()
            invariant
                i <= ids.len(),
                self@ == old(self)@.union(ids@.subrange(0, i as int).to_set()),
            decreases ids.len() - i,
        {
            self.insert(ids[i]);
            proof {
                assert(ids@.subrange(0, i + 1).to_set() =~= ids@.subrange(0, i as int).to_set().insert(ids@[i as int])) by {
                    assert(ids@.subrange(0, i + 1) =~= ids@.subrange(0, i as int).push(ids@[i as int]));
                }
            }
            i += 1;
            proof {
                assert(self@ =~= old(self)@.union(ids@.subrange(0, i as int).to_set()));
            }
        }
        proof {
            assert(ids@.subrange(0, ids.len() as int) =~= ids@);
            assert(final(self)@ =~= old(self)@.union(ids@.to_set()));
        }
    }

    /// Adds every id of `other` to the set.
    pub fn union_with(&mut self, other: &ColumnSet)
        ensures
            final(self)@ == old(self)@.union(other@),
    {
        self.extend_from(&other.cols);
    }

    /// Whether every id of the set is in `other`.
    pub fn is_subset(&self, other: &ColumnSet) -> (r: bool)
        ensures
            r == self@.subset_of(other@),
    {
        let mut i: usize = 0;
        while i < self.cols.len()
            invariant
                i <= self.cols.len(),
                forall|j: int| 0 <= j < i ==> other@.contains(#[trigger] self.cols@[j]),
            decreases self.cols.len() - i,
        {
            if !other.contains(self.cols[i]) {
                proof {
                    assert(self@.contains(self.cols@[i as int]));
                }
                return false;
            }
            i += 1;
        }
        proof {
            assert forall|x: usize| self@.contains(x) implies other@.contains(x) by {
                let j = choose|j: int| 0 <= j < self.cols.len() && self.cols@[j] == x;
            }
        }
        true
    }
}

} // verus!
