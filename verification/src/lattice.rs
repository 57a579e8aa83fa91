//! Join-semilattices used by the dataflow analyses.

use vstd::prelude::*;
use crate::bitset::BitSet;
use crate::graph::Const;

verus! {

/// The flat lattice over constants: `Bottom` below every `Elem(c)`, `Top`
/// above them, and two different constants comparable with neither.
#[derive(Clone, Copy, Debug, PartialEq, Eq, Structural)]
pub enum FlatSet {
    Bottom,
    Elem(Const),
    Top,
}

impl FlatSet {
    /// The lattice order.
    pub open spec fn le(self, other: FlatSet) -> bool {
        self is Bottom || other is Top || self == other
    }

    /// Least upper bound.
    pub open spec fn spec_join(self, other: FlatSet) -> FlatSet {
        match (self, other) {
            (FlatSet::Bottom, o) => o,
            (s, FlatSet::Bottom) => s,
            (FlatSet::Elem(a), FlatSet::Elem(b)) => if a == b {
                self
            } else {
                FlatSet::Top
            },
            _ => FlatSet::Top,
        }
    }

    /// The value allows that the constant is `c`: `Top` allows every
    /// constant, `Elem(k)` only `k`, and `Bottom` none.
    pub open spec fn describes(self, c: Const) -> bool {
        match self {
            FlatSet::Bottom => false,
            FlatSet::Elem(k) => k == c,
            FlatSet::Top => true,
        }
    }

    /// How many times the value can still rise.
    pub open spec fn rank(self) -> nat {
        match self {
            FlatSet::Bottom => 2,
            FlatSet::Elem(_) => 1,
            FlatSet::Top => 0,
        }
    }

    /// Replaces `self` by its least upper bound with `other`; the result
    /// tells whether `self` changed.
    pub fn join(&mut self, other: &FlatSet) -> (changed: bool)
        ensures
            *final(self) == old(self).spec_join(*other),
            changed == (*final(self) != *old(self)),
    {
        match (*self, *other) {
            (_, FlatSet::Bottom) => false,
            (FlatSet::Top, _) => false,
            (FlatSet::Bottom, o) => {
                *self = o;
                true
            },
            (FlatSet::Elem(a), FlatSet::Elem(b)) => {
                if a == b {
                    false
                } else {
                    *self = FlatSet::Top;
                    true
                }
            },
            (FlatSet::Elem(_), FlatSet::Top) => {
                *self = FlatSet::Top;
                true
            },
        }
    }
}

/// The join is the least upper bound of the flat lattice: it is above both
/// values, and below every value that is above both.
pub proof fn lemma_join_is_least_upper_bound(a: FlatSet, b: FlatSet, c: FlatSet)
    ensures
        a.le(a.spec_join(b)),
        b.le(a.spec_join(b)),
        a.le(c) && b.le(c) ==> a.spec_join(b).le(c),
{
}

/// The order of the flat lattice is reflexive, antisymmetric and
/// transitive.
pub proof fn lemma_le_is_partial_order(a: FlatSet, b: FlatSet, c: FlatSet)
    ensures
        a.le(a),
        a.le(b) && b.le(a) ==> a == b,
        a.le(b) && b.le(c) ==> a.le(c),
{
}

/// A value that rises loses rank: the join has no more rank than the value
/// joined into, and less where it differs from it.
pub proof fn lemma_join_rank(a: FlatSet, b: FlatSet)
    ensures
        a.spec_join(b).rank() <= a.rank(),
        a.spec_join(b) != a ==> a.spec_join(b).rank() < a.rank(),
{
}

/// A value that rises keeps allowing what it allowed: what either value
/// allows, their join allows, and what a value allows, every value above
/// it allows.
pub proof fn lemma_join_describes(a: FlatSet, b: FlatSet, c: Const)
    ensures
        a.describes(c) || b.describes(c) ==> a.spec_join(b).describes(c),
        a.le(b) && a.describes(c) ==> b.describes(c),
{
}

/// The value that `values` holds for `key`; `Top` for a key that it does
/// not track.
pub open spec fn spec_value_in(values: Seq<FlatSet>, key: u32) -> FlatSet {
    if (key as int) < values.len() {
        values[key as int]
    } else {
        FlatSet::Top
    }
}

/// The pointwise least upper bound of `a` with `b`, over the length of
/// `a`; where `b` is shorter, it counts as `Top`.
pub open spec fn spec_join_seq(a: Seq<FlatSet>, b: Seq<FlatSet>) -> Seq<FlatSet> {
    Seq::new(
        a.len(),
        |i: int|
            a[i].spec_join(
                if i < b.len() {
                    b[i]
                } else {
                    FlatSet::Top
                },
            ),
    )
}

/// The sum of the ranks of the values.
pub open spec fn spec_rank_sum(values: Seq<FlatSet>) -> nat
    decreases values.len(),
{
    if values.len() == 0 {
        0
    } else {
        spec_rank_sum(values.drop_last()) + values.last().rank()
    }
}

/// Where no value has more rank than before, the sum has no more; where
/// one has less, the sum has less.
pub proof fn lemma_rank_sum_pointwise(before: Seq<FlatSet>, after: Seq<FlatSet>)
    requires
        before.len() == after.len(),
        forall|i: int| 0 <= i < before.len() ==> after[i].rank() <= before[i].rank(),
    ensures
        spec_rank_sum(after) <= spec_rank_sum(before),
        (exists|i: int| 0 <= i < before.len() && after[i].rank() < before[i].rank())
            ==> spec_rank_sum(after) < spec_rank_sum(before),
    decreases before.len(),
{
    if before.len() > 0 {
        lemma_rank_sum_pointwise(before.drop_last(), after.drop_last());
        if exists|i: int| 0 <= i < before.len() && after[i].rank() < before[i].rank() {
            let i = choose|i: int| 0 <= i < before.len() && after[i].rank() < before[i].rank();
            if i < before.len() - 1 {
                assert(after.drop_last()[i].rank() < before.drop_last()[i].rank());
            }
        }
    }
}

/// A flat-lattice value for every key of a domain `0..domain_size`, held as
/// the set of keys that are `Top` and the constants of those that are known.
/// A key of the domain that is in neither is `Bottom`; a key outside the
/// domain is not tracked and reads as `Top`.
#[derive(Debug, PartialEq, Eq)]
pub struct SparseFlatSetMap {
    top_sets: BitSet,
    element_sets: Vec<Option<Const>>,
}

impl View for SparseFlatSetMap {
    type V = Seq<FlatSet>;

    /// The value of each key of the domain.
    closed spec fn view(&self) -> Seq<FlatSet> {
        Seq::new(
            self.element_sets@.len(),
            |i: int|
                if self.top_sets.spec_contains(i as nat) {
                    FlatSet::Top
                } else {
                    match self.element_sets@[i] {
                        Some(c) => FlatSet::Elem(c),
                        None => FlatSet::Bottom,
                    }
                },
        )
    }
}

impl SparseFlatSetMap {
    /// The value at index `i`: what the map holds inside its domain, `Top`
    /// outside.
    pub open spec fn value_at(&self, i: int) -> FlatSet {
        if 0 <= i < self@.len() {
            self@[i]
        } else {
            FlatSet::Top
        }
    }

    /// The value of `key`.
    pub open spec fn spec_get(&self, key: u32) -> FlatSet {
        self.value_at(key as int)
    }

    /// The map over `0..domain_size` in which every key is `Bottom`.
    pub fn new_empty(domain_size: usize) -> (res: SparseFlatSetMap)
        ensures
            res@ == Seq::new(domain_size as nat, |i: int| FlatSet::Bottom),
    {
        let top_sets = BitSet::new_empty(domain_size);
        let mut element_sets: Vec<Option<Const>> = Vec::new();
        let mut i: usize = 0;
        while i < domain_size
            invariant
                i <= domain_size,
                element_sets@.len() == i,
                forall|j: int| 0 <= j < i ==> element_sets@[j] is None,
            decreases domain_size - i,
        {
            element_sets.push(None);
            i += 1;
        }
        let res = SparseFlatSetMap { top_sets, element_sets };
        assert(res@ =~= Seq::new(domain_size as nat, |i: int| FlatSet::Bottom));
        res
    }

    /// Number of keys that the map tracks.
    pub fn domain_size(&self) -> (n: usize)
        ensures
            n == self@.len(),
    {
        self.element_sets.len()
    }

    pub fn get_flat_set(&self, key: u32) -> (res: FlatSet)
        ensures
            res == self.spec_get(key),
    {
        self.get_at(key as usize)
    }

    fn get_at(&self, k: usize) -> (res: FlatSet)
        ensures
            res == self.value_at(k as int),
    {
        if k >= self.element_sets.len() {
            FlatSet::Top
        } else if self.top_sets.contains(k) {
            FlatSet::Top
        } else {
            match self.element_sets[k] {
                Some(c) => FlatSet::Elem(c),
                None => FlatSet::Bottom,
            }
        }
    }

    /// The constant that `key` is known to hold, if it is known to hold one.
    pub fn get_element(&self, key: u32) -> (res: Option<Const>)
        ensures
            res == match self.spec_get(key) {
                FlatSet::Elem(c) => Some(c),
                _ => None,
            },
    {
        match self.get_flat_set(key) {
            FlatSet::Elem(c) => Some(c),
            _ => None,
        }
    }

    /// Gives `key` the value `val`; true when that changed the map. A key
    /// outside the domain is left untracked.
    pub fn set_flat_set(&mut self, key: u32, val: FlatSet) -> (changed: bool)
        ensures
            final(self)@ == if (key as int) < old(self)@.len() {
                old(self)@.update(key as int, val)
            } else {
                old(self)@
            },
            changed == (final(self)@ != old(self)@),
    {
        self.set_at(key as usize, val)
    }

    fn set_at(&mut self, k: usize, val: FlatSet) -> (changed: bool)
        ensures
            final(self)@ == if (k as int) < old(self)@.len() {
                old(self)@.update(k as int, val)
            } else {
                old(self)@
            },
            changed == (final(self)@ != old(self)@),
    {
        if k >= self.element_sets.len() {
            return false;
        }
        let before = self.get_at(k);
        match val {
            FlatSet::Top => {
                self.top_sets.ensure(k + 1);
                self.top_sets.insert(k);
                self.element_sets.set(k, None);
            },
            FlatSet::Elem(c) => {
                if k < self.top_sets.domain_size() {
                    self.top_sets.remove(k);
                }
                self.element_sets.set(k, Some(c));
            },
            FlatSet::Bottom => {
                if k < self.top_sets.domain_size() {
                    self.top_sets.remove(k);
                }
                self.element_sets.set(k, None);
            },
        }
        assert(self@ =~= old(self)@.update(k as int, val));
        proof {
            if before != val {
                assert(self@[k as int] != old(self)@[k as int]);
            } else {
                assert(self@ =~= old(self)@);
            }
        }
        !flat_set_eq(before, val)
    }

    /// Makes every key of the domain `Top`.
    pub fn insert_all_top(&mut self)
        ensures
            final(self)@ == Seq::new(old(self)@.len(), |i: int| FlatSet::Top),
    {
        let n = self.element_sets.len();
        self.top_sets.ensure(n);
        self.top_sets.insert_all();
        let mut i: usize = 0;
        while i < n
            invariant
                i <= n,
                n == self.element_sets@.len(),
                n == old(self)@.len(),
                self.top_sets@.len() >= n,
                forall|j: int| 0 <= j < n ==> #[trigger] self.top_sets@[j],
            decreases n - i,
        {
            self.element_sets.set(i, None);
            i += 1;
        }
        assert(self@ =~= Seq::new(old(self)@.len(), |i: int| FlatSet::Top));
    }

    /// Joins the value of `key` into `dst`; true when `dst` changed.
    pub fn join_into(&self, key: u32, dst: &mut FlatSet) -> (changed: bool)
        ensures
            *final(dst) == old(dst).spec_join(self.spec_get(key)),
            changed == (*final(dst) != *old(dst)),
    {
        let val = self.get_flat_set(key);
        dst.join(&val)
    }
}

impl SparseFlatSetMap {
    /// The pointwise least upper bound of two maps over the domain of the
    /// first.
    pub open spec fn spec_join(&self, other: &SparseFlatSetMap) -> Seq<FlatSet> {
        spec_join_seq(self@, other@)
    }

    /// Replaces every value by its least upper bound with the value that
    /// `other` has for the same key; true when the map changed.
    pub fn join(&mut self, other: &SparseFlatSetMap) -> (changed: bool)
        ensures
            final(self)@ == old(self).spec_join(other),
            changed == (final(self)@ != old(self)@),
            spec_rank_sum(final(self)@) <= spec_rank_sum(old(self)@),
            changed ==> spec_rank_sum(final(self)@) < spec_rank_sum(old(self)@),
    {
        let n = self.element_sets.len();
        let mut changed = false;
        let mut i: usize = 0;
        while i < n
            invariant
                i <= n,
                n == self@.len(),
                self@.len() == old(self)@.len(),
                forall|j: int| 0 <= j < i ==> self@[j] == old(self)@[j].spec_join(other.value_at(j)),
                forall|j: int| i <= j < n ==> self@[j] == old(self)@[j],
                changed == exists|j: int| 0 <= j < i && self@[j] != old(self)@[j],
            decreases n - i,
        {
            let mut cur = self.get_at(i);
            let theirs = other.get_at(i);
            let ghost before = self@;
            if cur.join(&theirs) {
                self.set_at(i, cur);
                changed = true;
                assert(self@[i as int] != old(self)@[i as int]);
            } else {
                assert(forall|j: int| 0 <= j < i + 1 && self@[j] != old(self)@[j] ==> 0 <= j < i
                    && before[j] != old(self)@[j]);
            }
            i += 1;
        }
        assert(self@ =~= old(self).spec_join(other));
        proof {
            assert forall|j: int| 0 <= j < n implies self@[j].rank() <= old(self)@[j].rank() by {
                lemma_join_rank(old(self)@[j], other.value_at(j));
            }
            if changed {
                let j = choose|j: int| 0 <= j < n && self@[j] != old(self)@[j];
                assert(self@[j] != old(self)@[j]);
                lemma_join_rank(old(self)@[j], other.value_at(j));
                assert(self@[j].rank() < old(self)@[j].rank());
            } else {
                assert(self@ =~= old(self)@);
            }
            lemma_rank_sum_pointwise(old(self)@, self@);
        }
        changed
    }

    /// A copy that holds the same value for every key.
    pub fn clone_map(&self) -> (res: SparseFlatSetMap)
        ensures
            res@ == self@,
    {
        let n = self.element_sets.len();
        let mut res = SparseFlatSetMap::new_empty(n);
        let mut i: usize = 0;
        while i < n
            invariant
                i <= n,
                n == self@.len(),
                res@.len() == n,
                forall|j: int| 0 <= j < i ==> res@[j] == self@[j],
            decreases n - i,
        {
            let val = self.get_at(i);
            res.set_at(i, val);
            i += 1;
        }
        assert(res@ =~= self@);
        res
    }
}

impl FlatSet {
    /// See [`FlatSet::le`].
    pub fn is_le(self, other: FlatSet) -> (res: bool)
        ensures
            res == self.le(other),
    {
        match (self, other) {
            (FlatSet::Bottom, _) => true,
            (_, FlatSet::Top) => true,
            _ => self == other,
        }
    }
}

impl SparseFlatSetMap {
    /// Whether `other` tracks the same keys and has each of them at or
    /// above the value that `self` has for it.
    pub fn is_below(&self, other: &SparseFlatSetMap) -> (res: bool)
        ensures
            res == (self@.len() == other@.len() && forall|i: int|
                0 <= i < self@.len() ==> (#[trigger] self@[i]).le(other@[i])),
    {
        let n = self.element_sets.len();
        if other.element_sets.len() != n {
            return false;
        }
        let mut i: usize = 0;
        while i < n
            invariant
                i <= n,
                n == self@.len(),
                n == other@.len(),
                forall|j: int| 0 <= j < i ==> (#[trigger] self@[j]).le(other@[j]),
            decreases n - i,
        {
            if !self.get_at(i).is_le(other.get_at(i)) {
                return false;
            }
            i += 1;
        }
        true
    }
}

/// Whether two lattice values are the same.
pub fn flat_set_eq(a: FlatSet, b: FlatSet) -> (res: bool)
    ensures
        res == (a == b),
{
    a == b
}

} // verus!
