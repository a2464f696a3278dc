//! A map between integers that can be read in both directions.

use vstd::prelude::*;
use vstd::std_specs::hash::obeys_key_model;

use crate::int_map::{int_map_contains, int_map_get, int_map_insert, int_map_len, int_map_pairs, int_map_remove, int_map_with_capacity};
use nohash_hasher::{IntMap, IsEnabled};
use std::hash::Hash;

verus! {

/// Two maps, from left to right and from right to left.
///
/// An insertion writes both; a removal by one side touches only the map of
/// that side.
#[derive(Debug)]
#[verifier::reject_recursive_types(L)]
#[verifier::reject_recursive_types(R)]
pub struct PrimBiMap<L, R> {
    pub(crate) map: IntMap<L, R>,
    pub(crate) rev_map: IntMap<R, L>,
}

impl<L, R> PrimBiMap<L, R> where
    L: Hash + Eq + Copy + IsEnabled,
    R: Hash + Eq + Copy + IsEnabled,
 {
    /// The map from left to right.
    pub closed spec fn left_to_right(&self) -> Map<L, R> {
        self.map@
    }

    /// The map from right to left.
    pub closed spec fn right_to_left(&self) -> Map<R, L> {
        self.rev_map@
    }

    /// An empty map.
    pub fn new() -> (m: Self)
        ensures
            m.left_to_right() == Map::<L, R>::empty(),
            m.right_to_left() == Map::<R, L>::empty(),
    {
        PrimBiMap { map: int_map_with_capacity(0), rev_map: int_map_with_capacity(0) }
    }

    /// An empty map with room for `capacity` pairs.
    pub fn with_capacity(capacity: usize) -> (m: Self)
        ensures
            m.left_to_right() == Map::<L, R>::empty(),
            m.right_to_left() == Map::<R, L>::empty(),
    {
        PrimBiMap {
            map: int_map_with_capacity(capacity),
            rev_map: int_map_with_capacity(capacity),
        }
    }

    /// Maps `left` to `right` and `right` to `left`; returns what `right` and
    /// `left` were mapped to before.
    pub fn insert(&mut self, left: L, right: R) -> (replaced: (Option<L>, Option<R>))
        requires
            obeys_key_model::<L>(),
            obeys_key_model::<R>(),
        ensures
            final(self).left_to_right() == old(self).left_to_right().insert(left, right),
            final(self).right_to_left() == old(self).right_to_left().insert(right, left),
            replaced.0 == (if old(self).right_to_left().contains_key(right) {
                Some(old(self).right_to_left()[right])
            } else {
                None
            }),
            replaced.1 == (if old(self).left_to_right().contains_key(left) {
                Some(old(self).left_to_right()[left])
            } else {
                None
            }),
    {
        let l = int_map_insert(&mut self.rev_map, right, left);
        let r = int_map_insert(&mut self.map, left, right);
        (l, r)
    }

    /// What `right` is mapped to.
    pub fn get_by_right(&self, right: &R) -> (l: Option<&L>)
        requires
            obeys_key_model::<R>(),
        ensures
            l == (if self.right_to_left().contains_key(*right) {
                Some(&self.right_to_left()[*right])
            } else {
                None
            }),
    {
        int_map_get(&self.rev_map, right)
    }

    /// What `left` is mapped to.
    pub fn get_by_left(&self, left: &L) -> (r: Option<&R>)
        requires
            obeys_key_model::<L>(),
        ensures
            r == (if self.left_to_right().contains_key(*left) {
                Some(&self.left_to_right()[*left])
            } else {
                None
            }),
    {
        int_map_get(&self.map, left)
    }

    /// Removes `left` from the map from left to right; returns what it was
    /// mapped to.
    pub fn remove_by_left(&mut self, left: &L) -> (r: Option<R>)
        requires
            obeys_key_model::<L>(),
        ensures
            final(self).left_to_right() == old(self).left_to_right().remove(*left),
            final(self).right_to_left() == old(self).right_to_left(),
            r == (if old(self).left_to_right().contains_key(*left) {
                Some(old(self).left_to_right()[*left])
            } else {
                None
            }),
    {
        int_map_remove(&mut self.map, left)
    }

    /// Removes `right` from the map from right to left; returns what it was
    /// mapped to.
    pub fn remove_by_right(&mut self, right: &R) -> (l: Option<L>)
        requires
            obeys_key_model::<R>(),
        ensures
            final(self).right_to_left() == old(self).right_to_left().remove(*right),
            final(self).left_to_right() == old(self).left_to_right(),
            l == (if old(self).right_to_left().contains_key(*right) {
                Some(old(self).right_to_left()[*right])
            } else {
                None
            }),
    {
        int_map_remove(&mut self.rev_map, right)
    }

    /// Whether `left` is mapped.
    pub fn contains_left(&self, left: &L) -> (b: bool)
        requires
            obeys_key_model::<L>(),
        ensures
            b == self.left_to_right().contains_key(*left),
    {
        int_map_contains(&self.map, left)
    }

    /// Whether `right` is mapped.
    pub fn contains_right(&self, right: &R) -> (b: bool)
        requires
            obeys_key_model::<R>(),
        ensures
            b == self.right_to_left().contains_key(*right),
    {
        int_map_contains(&self.rev_map, right)
    }

    /// The number of pairs in the map from left to right.
    pub fn len(&self) -> (n: usize)
        requires
            obeys_key_model::<L>(),
        ensures
            n == self.left_to_right().len(),
    {
        int_map_len(&self.map)
    }

    /// The pairs of the map from left to right, each left once.
    pub fn iter_lr(&self) -> (pairs: Vec<(L, R)>)
        requires
            obeys_key_model::<L>(),
        ensures
            pairs@.len() == self.left_to_right().len(),
            forall|i: int| 0 <= i < pairs@.len() ==> self.left_to_right().contains_key(#[trigger] pairs@[i].0)
                && self.left_to_right()[pairs@[i].0] == pairs@[i].1,
            forall|i: int, j: int| 0 <= i < j < pairs@.len() ==> #[trigger] pairs@[i].0 != #[trigger] pairs@[j].0,
            forall|l: L| #[trigger] self.left_to_right().contains_key(l) ==> exists|i: int| 0 <= i < pairs@.len() && pairs@[i].0 == l,
    {
        int_map_pairs(&self.map)
    }

    /// The pairs of the map from right to left, each right once.
    pub fn iter_rl(&self) -> (pairs: Vec<(R, L)>)
        requires
            obeys_key_model::<R>(),
        ensures
            pairs@.len() == self.right_to_left().len(),
            forall|i: int| 0 <= i < pairs@.len() ==> self.right_to_left().contains_key(#[trigger] pairs@[i].0)
                && self.right_to_left()[pairs@[i].0] == pairs@[i].1,
            forall|i: int, j: int| 0 <= i < j < pairs@.len() ==> #[trigger] pairs@[i].0 != #[trigger] pairs@[j].0,
            forall|r: R| #[trigger] self.right_to_left().contains_key(r) ==> exists|i: int| 0 <= i < pairs@.len() && pairs@[i].0 == r,
    {
        int_map_pairs(&self.rev_map)
    }
}

/// After an insertion, each side reads back the other.
pub proof fn lemma_insert_reads_back<L, R>(before: PrimBiMap<L, R>, after: PrimBiMap<L, R>, left: L, right: R)
    where
        L: Hash + Eq + Copy + IsEnabled,
        R: Hash + Eq + Copy + IsEnabled,
    requires
        after.left_to_right() == before.left_to_right().insert(left, right),
        after.right_to_left() == before.right_to_left().insert(right, left),
    ensures
        after.left_to_right().contains_key(left) && after.left_to_right()[left] == right,
        after.right_to_left().contains_key(right) && after.right_to_left()[right] == left,
{
}

} // verus!
