//! Compressed sets of H3 indexes.
//!
//! [`H3Treemap`] stores H3 index values in a `roaring::RoaringTreemap`, which
//! splits each `u64` into two `u32` halves: the upper half keys a `BTreeMap`
//! of bitmaps holding the lower halves.
use vstd::prelude::*;
use std::marker::PhantomData;
use roaring::RoaringTreemap;
use crate::h3::{H3Index, index_values, sorted_dedup, strictly_increasing};

verus! {

#[verifier::external_type_specification]
#[verifier::external_body]
pub struct ExRoaringTreemap(RoaringTreemap);

/// The values held by a `roaring::RoaringTreemap`.
pub uninterp spec fn treemap_contents(t: RoaringTreemap) -> Set<u64>;

/// The empty set of values.
pub open spec fn no_values() -> Set<u64> {
    Set::empty()
}

/// Calls `roaring::RoaringTreemap::new`.
///
/// Claims that the new treemap is empty.
#[verifier::external_body]
fn treemap_new() -> (r: RoaringTreemap)
    ensures
        treemap_contents(r) == no_values(),
{
    RoaringTreemap::new()
}

/// Calls `roaring::RoaringTreemap::from_sorted_iter` on the values.
///
/// Claims, as the documentation states, that a strictly increasing input
/// gives a treemap holding exactly the input's values; for other inputs the
/// result (the outside error becomes `None`) is left open.
#[verifier::external_body]
fn treemap_from_sorted(values: &Vec<u64>) -> (r: Option<RoaringTreemap>)
    ensures
        strictly_increasing(values@) ==> r is Some && treemap_contents(r->0) == values@.to_set(),
{
    RoaringTreemap::from_sorted_iter(values.iter().copied()).ok()
}

/// Calls `roaring::RoaringTreemap::insert`.
///
/// Claims that `value` is added, and that the result tells whether it was absent before.
#[verifier::external_body]
fn treemap_insert(t: &mut RoaringTreemap, value: u64) -> (r: bool)
    ensures
        treemap_contents(*final(t)) == treemap_contents(*old(t)).insert(value),
        r == !treemap_contents(*old(t)).contains(value),
    no_unwind
{
    t.insert(value)
}

/// Calls `roaring::RoaringTreemap::try_push`; the result is whether it returned `Ok`.
///
/// Claims what the source shows: a push that succeeds adds a value that was
/// absent, a push that fails leaves the contents as they were, and a value
/// greater than every stored value is always pushed.
#[verifier::external_body]
fn treemap_try_push(t: &mut RoaringTreemap, value: u64) -> (r: bool)
    ensures
        r ==> treemap_contents(*final(t)) == treemap_contents(*old(t)).insert(value)
            && !treemap_contents(*old(t)).contains(value),
        !r ==> treemap_contents(*final(t)) == treemap_contents(*old(t)),
        (forall|x: u64| #[trigger] treemap_contents(*old(t)).contains(x) ==> x < value) ==> r,
    no_unwind
{
    t.try_push(value).is_ok()
}

/// Calls `roaring::RoaringTreemap::contains`.
///
/// Claims that the result is whether `value` is held.
#[verifier::external_body]
fn treemap_contains(t: &RoaringTreemap, value: u64) -> (r: bool)
    ensures
        r == treemap_contents(*t).contains(value),
{
    t.contains(value)
}

/// Calls `roaring::RoaringTreemap::len`.
///
/// Claims that the result is the number of values held.
#[verifier::external_body]
fn treemap_len(t: &RoaringTreemap) -> (r: u64)
    ensures
        r == treemap_contents(*t).len(),
{
    t.len()
}

/// Calls `roaring::RoaringTreemap::is_empty`.
///
/// Claims that the result is whether no value is held.
#[verifier::external_body]
fn treemap_is_empty(t: &RoaringTreemap) -> (r: bool)
    ensures
        r == (treemap_contents(*t) == no_values()),
{
    t.is_empty()
}

/// Calls `roaring::RoaringTreemap::is_disjoint`.
///
/// Claims that the result is whether the two treemaps share no value.
#[verifier::external_body]
fn treemap_is_disjoint(a: &RoaringTreemap, b: &RoaringTreemap) -> (r: bool)
    ensures
        r == treemap_contents(*a).disjoint(treemap_contents(*b)),
{
    a.is_disjoint(b)
}

/// Calls `roaring::RoaringTreemap::is_subset`.
///
/// Claims that the result is whether every value of `a` is held by `b`.
#[verifier::external_body]
fn treemap_is_subset(a: &RoaringTreemap, b: &RoaringTreemap) -> (r: bool)
    ensures
        r == treemap_contents(*a).subset_of(treemap_contents(*b)),
{
    a.is_subset(b)
}

/// Calls `roaring::RoaringTreemap::is_superset`.
///
/// Claims that the result is whether every value of `b` is held by `a`.
#[verifier::external_body]
fn treemap_is_superset(a: &RoaringTreemap, b: &RoaringTreemap) -> (r: bool)
    ensures
        r == treemap_contents(*b).subset_of(treemap_contents(*a)),
{
    a.is_superset(b)
}

/// Calls `roaring::RoaringTreemap::iter` and collects the values.
///
/// Claims, as the documentation states, that the values come in increasing
/// order, and that they are exactly the values held.
#[verifier::external_body]
fn treemap_values(t: &RoaringTreemap) -> (r: Vec<u64>)
    ensures
        strictly_increasing(r@),
        r@.to_set() == treemap_contents(*t),
{
    t.iter().collect()
}

/// Calls `Clone::clone` of `roaring::RoaringTreemap`.
///
/// Claims that the clone holds the same values.
#[verifier::external_body]
fn treemap_clone(t: &RoaringTreemap) -> (r: RoaringTreemap)
    ensures
        treemap_contents(r) == treemap_contents(*t),
{
    t.clone()
}

/// A compressed set of H3 indexes of one kind (cells or directed edges).
pub struct H3Treemap<T: H3Index> {
    treemap: RoaringTreemap,
    phantom_data: PhantomData<T>,
}

impl<T: H3Index> View for H3Treemap<T> {
    type V = Set<u64>;

    closed spec fn view(&self) -> Set<u64> {
        treemap_contents(self.treemap)
    }
}

impl<T: H3Index> H3Treemap<T> {
    /// Every held value is a valid index of the kind `T`.
    #[verifier::type_invariant]
    closed spec fn inv(&self) -> bool {
        forall|v: u64| #[trigger] treemap_contents(self.treemap).contains(v) ==> T::valid_index(v)
    }

    /// An empty treemap.
    pub fn new() -> (r: Self)
        ensures
            r@ == Set::<u64>::empty(),
    {
        H3Treemap { treemap: treemap_new(), phantom_data: PhantomData }
    }

    /// A treemap holding the given indexes. The values are sorted and
    /// deduplicated first, which lets the treemap be built in one pass.
    pub fn from_indexes(indexes: &Vec<T>) -> (r: Self)
        ensures
            r@ == index_values(indexes@).to_set(),
    {
        let sorted = sorted_dedup(indexes);
        let mut values: Vec<u64> = Vec::new();
        let n = sorted.len();
        for i in 0..n
            invariant
                n == sorted@.len(),
                values@ == index_values(sorted@).take(i as int),
                forall|j: int| 0 <= j < i ==> T::valid_index(#[trigger] values@[j]),
        {
            let v = sorted[i].index_u64();
            values.push(v);
            assert(index_values(sorted@).take(i + 1) == index_values(sorted@).take(i as int).push(v));
        }
        assert(index_values(sorted@).take(n as int) == index_values(sorted@));
        assert(values@.to_set() == index_values(indexes@).to_set()) by {
            assert forall|x: u64| values@.to_set().contains(x) <==> index_values(indexes@).to_set().contains(x) by {
                assert(values@.to_set().contains(x) <==> values@.contains(x));
                assert(index_values(indexes@).to_set().contains(x) <==> index_values(indexes@).contains(x));
            }
        }
        match treemap_from_sorted(&values) {
            Some(treemap) => {
                assert forall|v: u64| #[trigger] treemap_contents(treemap).contains(v) implies T::valid_index(v) by {
                    assert(values@.to_set().contains(v));
                    let j = choose|j: int| 0 <= j < values@.len() && values@[j] == v;
                }
                H3Treemap { treemap, phantom_data: PhantomData }
            },
            None => {
                // unreachable: the values are strictly increasing
                H3Treemap { treemap: treemap_new(), phantom_data: PhantomData }
            },
        }
    }

    /// Pushes `index` only if its value is greater than the values held in
    /// its part of the treemap (the values sharing its upper 32 bits); a value
    /// above every value held is always pushed. Returns whether it was
    /// inserted.
    pub fn push(&mut self, index: T) -> (r: bool)
        ensures
            r ==> final(self)@ == old(self)@.insert(index.index_value()) && !old(self)@.contains(
                index.index_value(),
            ),
            !r ==> final(self)@ == old(self)@,
            (forall|x: u64| #[trigger] old(self)@.contains(x) ==> x < index.index_value()) ==> r,
    {
        proof {
            use_type_invariant(&*self);
        }
        let v = index.index_u64();
        treemap_try_push(&mut self.treemap, v)
    }

    /// Adds `index`. Returns whether it was not present before.
    pub fn insert(&mut self, index: T) -> (r: bool)
        ensures
            final(self)@ == old(self)@.insert(index.index_value()),
            r == !old(self)@.contains(index.index_value()),
    {
        proof {
            use_type_invariant(&*self);
        }
        let v = index.index_u64();
        treemap_insert(&mut self.treemap, v)
    }

    /// The number of indexes held (when it fits a `usize`).
    pub fn len(&self) -> (r: usize)
        ensures
            self@.len() <= usize::MAX ==> r == self@.len(),
    {
        let n = treemap_len(&self.treemap);
        if n <= usize::MAX as u64 {
            n as usize
        } else {
            usize::MAX
        }
    }

    /// Whether no index is held.
    pub fn is_empty(&self) -> (r: bool)
        ensures
            r == (self@ == Set::<u64>::empty()),
    {
        treemap_is_empty(&self.treemap)
    }

    /// Whether `index` is held.
    pub fn contains(&self, index: &T) -> (r: bool)
        ensures
            r == self@.contains(index.index_value()),
    {
        let v = index.index_u64();
        treemap_contains(&self.treemap, v)
    }

    /// Whether the two treemaps share no index.
    pub fn is_disjoint(&self, rhs: &Self) -> (r: bool)
        ensures
            r == self@.disjoint(rhs@),
    {
        treemap_is_disjoint(&self.treemap, &rhs.treemap)
    }

    /// Whether every index of `self` is held by `rhs`.
    pub fn is_subset(&self, rhs: &Self) -> (r: bool)
        ensures
            r == self@.subset_of(rhs@),
    {
        treemap_is_subset(&self.treemap, &rhs.treemap)
    }

    /// Whether every index of `rhs` is held by `self`.
    pub fn is_superset(&self, rhs: &Self) -> (r: bool)
        ensures
            r == rhs@.subset_of(self@),
    {
        treemap_is_superset(&self.treemap, &rhs.treemap)
    }

    /// The held indexes in increasing order of their value.
    pub fn iter(&self) -> (r: Vec<T>)
        ensures
            strictly_increasing(index_values(r@)),
            index_values(r@).to_set() == self@,
    {
        proof {
            use_type_invariant(self);
        }
        let values = treemap_values(&self.treemap);
        let mut out: Vec<T> = Vec::new();
        let n = values.len();
        for i in 0..n
            invariant
                n == values@.len(),
                index_values(out@) == values@.take(i as int),
                forall|v: u64| #[trigger] values@.to_set().contains(v) ==> T::valid_index(v),
        {
            assert(values@.to_set().contains(values@[i as int]));
            let t = T::from_valid_u64(values[i]);
            out.push(t);
            assert(values@.take(i + 1) == values@.take(i as int).push(values@[i as int]));
        }
        assert(values@.take(n as int) == values@);
        out
    }

    /// A copy of the treemap.
    pub fn clone(&self) -> (r: Self)
        ensures
            r@ == self@,
    {
        proof {
            use_type_invariant(self);
        }
        H3Treemap { treemap: treemap_clone(&self.treemap), phantom_data: PhantomData }
    }
}

} // verus!
