//! The lattice value of every SSA temporary.

use vstd::prelude::*;
use crate::graph::Const;
use crate::lattice::{lemma_join_rank, lemma_rank_sum_pointwise, spec_rank_sum, FlatSet};

verus! {

/// One flat-lattice value per local `0..num_locals`. A local that has not
/// been given a value is `Bottom`; a local outside the range is not tracked
/// and reads as `Top`. The value of a local only ever rises.
#[derive(Debug, PartialEq, Eq)]
pub struct SsaConstants {
    values: Vec<FlatSet>,
}

impl View for SsaConstants {
    type V = Seq<FlatSet>;

    closed spec fn view(&self) -> Seq<FlatSet> {
        self.values@
    }
}

impl SsaConstants {
    /// The value of `local`.
    pub open spec fn spec_get(&self, local: u32) -> FlatSet {
        if (local as int) < self@.len() {
            self@[local as int]
        } else {
            FlatSet::Top
        }
    }

    /// What `set(local, val)` leaves behind.
    pub open spec fn spec_set(&self, local: u32, val: FlatSet) -> Seq<FlatSet> {
        if (local as int) < self@.len() {
            self@.update(local as int, self@[local as int].spec_join(val))
        } else {
            self@
        }
    }

    /// All of `0..num_locals` at `Bottom`.
    pub fn new(num_locals: usize) -> (res: SsaConstants)
        ensures
            res@ == Seq::new(num_locals as nat, |i: int| FlatSet::Bottom),
    {
        let mut values: Vec<FlatSet> = Vec::new();
        let mut i: usize = 0;
        while i < num_locals
            invariant
                i <= num_locals,
                values@ == Seq::new(i as nat, |j: int| FlatSet::Bottom),
            decreases num_locals - i,
        {
            values.push(FlatSet::Bottom);
            i += 1;
            assert(values@ =~= Seq::new(i as nat, |j: int| FlatSet::Bottom));
        }
        SsaConstants { values }
    }

    pub fn get(&self, local: u32) -> (res: FlatSet)
        ensures
            res == self.spec_get(local),
    {
        let l = local as usize;
        if l < self.values.len() {
            self.values[l]
        } else {
            FlatSet::Top
        }
    }

    /// The constant that `local` is known to hold, if it is known to hold one.
    pub fn get_option(&self, local: u32) -> (res: Option<Const>)
        ensures
            res == match self.spec_get(local) {
                FlatSet::Elem(c) => Some(c),
                _ => None,
            },
    {
        match self.get(local) {
            FlatSet::Elem(c) => Some(c),
            _ => None,
        }
    }

    /// Records that `local` may hold `val`: its value becomes the least
    /// upper bound of what it was and `val`. True when that changed
    /// anything. A local outside the range is left untracked.
    pub fn set(&mut self, local: u32, val: FlatSet) -> (changed: bool)
        ensures
            final(self)@ == old(self).spec_set(local, val),
            changed == (final(self)@ != old(self)@),
            spec_rank_sum(final(self)@) <= spec_rank_sum(old(self)@),
            changed ==> spec_rank_sum(final(self)@) < spec_rank_sum(old(self)@),
    {
        let l = local as usize;
        if l >= self.values.len() {
            return false;
        }
        let mut cur = self.values[l];
        let changed = cur.join(&val);
        self.values.set(l, cur);
        proof {
            lemma_join_rank(old(self)@[l as int], val);
            assert forall|j: int| 0 <= j < self@.len() implies self@[j].rank() <= old(
                self,
            )@[j].rank() by {}
            if changed {
                assert(self@[l as int] != old(self)@[l as int]);
                assert(self@[l as int].rank() < old(self)@[l as int].rank());
            } else {
                assert(self@ =~= old(self)@);
            }
            lemma_rank_sum_pointwise(old(self)@, self@);
        }
        changed
    }

    /// Joins the value of `local` into `dst`; true when `dst` changed.
    pub fn join_into(&self, local: u32, dst: &mut FlatSet) -> (changed: bool)
        ensures
            *final(dst) == old(dst).spec_join(self.spec_get(local)),
            changed == (*final(dst) != *old(dst)),
    {
        let val = self.get(local);
        dst.join(&val)
    }
}

} // verus!
