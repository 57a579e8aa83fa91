//! A set of small numbers over a fixed domain `0..domain_size`.

use vstd::prelude::*;

verus! {

/// A set of indices below its domain size.
#[derive(Debug, PartialEq, Eq)]
pub struct BitSet {
    bits: Vec<bool>,
}

impl View for BitSet {
    type V = Seq<bool>;

    /// One flag per index of the domain.
    closed spec fn view(&self) -> Seq<bool> {
        self.bits@
    }
}

impl BitSet {
    /// Size of the domain.
    pub open spec fn spec_domain_size(&self) -> nat {
        self@.len()
    }

    /// `elem` is in the set. Nothing outside the domain is.
    pub open spec fn spec_contains(&self, elem: nat) -> bool {
        elem < self@.len() && self@[elem as int]
    }

    /// The empty set over `0..domain_size`.
    pub fn new_empty(domain_size: usize) -> (res: BitSet)
        ensures
            res@ == Seq::new(domain_size as nat, |i: int| false),
    {
        let mut bits: Vec<bool> = Vec::new();
        let mut i: usize = 0;
        while i < domain_size
            invariant
                i <= domain_size,
                bits@ == Seq::new(i as nat, |j: int| false),
            decreases domain_size - i,
        {
            bits.push(false);
            i += 1;
            assert(bits@ =~= Seq::new(i as nat, |j: int| false));
        }
        BitSet { bits }
    }

    #[verifier::when_used_as_spec(spec_domain_size_usize)]
    pub fn domain_size(&self) -> (n: usize)
        ensures
            n == self@.len(),
    {
        self.bits.len()
    }

    /// Size of the domain as a machine number.
    pub open spec fn spec_domain_size_usize(&self) -> usize {
        self@.len() as usize
    }

    pub fn contains(&self, elem: usize) -> (res: bool)
        ensures
            res == self.spec_contains(elem as nat),
    {
        elem < self.bits.len() && self.bits[elem]
    }

    /// Adds `elem`; true when it was not in the set before.
    pub fn insert(&mut self, elem: usize) -> (changed: bool)
        requires
            elem < old(self)@.len(),
        ensures
            final(self)@ == old(self)@.update(elem as int, true),
            changed == !old(self)@[elem as int],
    {
        let was = self.bits[elem];
        self.bits.set(elem, true);
        !was
    }

    /// Removes `elem`; true when it was in the set before.
    pub fn remove(&mut self, elem: usize) -> (changed: bool)
        requires
            elem < old(self)@.len(),
        ensures
            final(self)@ == old(self)@.update(elem as int, false),
            changed == old(self)@[elem as int],
    {
        let was = self.bits[elem];
        self.bits.set(elem, false);
        was
    }

    /// Adds every index of the domain.
    pub fn insert_all(&mut self)
        ensures
            final(self)@ == Seq::new(old(self)@.len(), |i: int| true),
    {
        let n = self.bits.len();
        let mut i: usize = 0;
        while i < n
            invariant
                i <= n,
                n == self.bits@.len(),
                self.bits@.len() == old(self)@.len(),
                forall|j: int| 0 <= j < i ==> self.bits@[j],
            decreases n - i,
        {
            self.bits.set(i, true);
            i += 1;
        }
        assert(self.bits@ =~= Seq::new(old(self)@.len(), |i: int| true));
    }

    /// Grows the domain to at least `min_domain_size`; the new indices are
    /// not in the set.
    pub fn ensure(&mut self, min_domain_size: usize)
        ensures
            final(self)@.len() == if old(self)@.len() >= min_domain_size {
                old(self)@.len()
            } else {
                min_domain_size as nat
            },
            forall|i: nat| final(self).spec_contains(i) == old(self).spec_contains(i),
    {
        while self.bits.len() < min_domain_size
            invariant
                self.bits@.len() >= old(self)@.len(),
                self.bits@.len() > old(self)@.len() ==> self.bits@.len() <= min_domain_size,
                forall|i: int| 0 <= i < old(self)@.len() ==> self.bits@[i] == old(self)@[i],
                forall|i: int| old(self)@.len() <= i < self.bits@.len() ==> !self.bits@[i],
            decreases min_domain_size - self.bits.len(),
        {
            self.bits.push(false);
        }
    }
}

} // verus!
