//! Integer-keyed maps and sets, hashed without a hasher (`nohash_hasher`).
//!
//! These are std `HashMap`s and `HashSet`s whose build-hasher passes an
//! integer key through unchanged. The hasher only decides where an entry is
//! stored; the map operations behave as for any `HashMap` whose key type has a
//! `Hash` that agrees with its `Eq`, which is what `obeys_key_model` states.

use vstd::prelude::*;
use vstd::std_specs::hash::obeys_key_model;

use nohash_hasher::{IntMap, IntSet, IsEnabled, NoHashHasher};
use std::hash::{BuildHasherDefault, Hash};


verus! {

/// The hasher of `nohash_hasher`, opaque to the library.
#[verifier::external_type_specification]
#[verifier::external_body]
#[verifier::reject_recursive_types(T)]
pub struct ExNoHashHasher<T>(NoHashHasher<T>);

/// std's build-hasher that makes hashers by `Default`, opaque to the library.
#[verifier::external_type_specification]
#[verifier::external_body]
#[verifier::reject_recursive_types(H)]
pub struct ExBuildHasherDefault<H>(BuildHasherDefault<H>);

/// Inserts `v` at `k` and returns the value it replaced.
/// Calls `HashMap::insert`.
#[verifier::external_body]
pub(crate) fn int_map_insert<K: Hash + Eq + IsEnabled, V>(m: &mut IntMap<K, V>, k: K, v: V) -> (old_v:
    Option<V>)
    requires
        obeys_key_model::<K>(),
    ensures
        final(m)@ == old(m)@.insert(k, v),
        old(m)@.contains_key(k) ==> old_v == Some(old(m)@[k]),
        !old(m)@.contains_key(k) ==> old_v is None,
{
    m.insert(k, v)
}

/// Removes the entry at `k` and returns its value.
/// Calls `HashMap::remove`.
#[verifier::external_body]
pub(crate) fn int_map_remove<K: Hash + Eq + IsEnabled, V>(m: &mut IntMap<K, V>, k: &K) -> (old_v: Option<
    V,
>)
    requires
        obeys_key_model::<K>(),
    ensures
        final(m)@ == old(m)@.remove(*k),
        old(m)@.contains_key(*k) ==> old_v == Some(old(m)@[*k]),
        !old(m)@.contains_key(*k) ==> old_v is None,
{
    m.remove(k)
}

/// The value at `k`, if any.
/// Calls `HashMap::get`.
#[verifier::external_body]
pub(crate) fn int_map_get<'a, K: Hash + Eq + IsEnabled, V>(m: &'a IntMap<K, V>, k: &K) -> (v: Option<&'a V>)
    requires
        obeys_key_model::<K>(),
    ensures
        m@.contains_key(*k) ==> v == Some(&m@[*k]),
        !m@.contains_key(*k) ==> v is None,
{
    m.get(k)
}

/// Whether there is an entry at `k`.
/// Calls `HashMap::contains_key`.
#[verifier::external_body]
pub(crate) fn int_map_contains<K: Hash + Eq + IsEnabled, V>(m: &IntMap<K, V>, k: &K) -> (b: bool)
    requires
        obeys_key_model::<K>(),
    ensures
        b == m@.contains_key(*k),
{
    m.contains_key(k)
}

/// The number of entries.
/// Calls `HashMap::len`.
#[verifier::external_body]
pub(crate) fn int_map_len<K: Hash + Eq + IsEnabled, V>(m: &IntMap<K, V>) -> (n: usize)
    requires
        obeys_key_model::<K>(),
    ensures
        n == m@.len(),
{
    m.len()
}

/// The keys, each once, in the map's iteration order, which the library does
/// not rely on.
/// Calls `HashMap::keys` and copies the keys out.
#[verifier::external_body]
pub(crate) fn int_map_keys<K: Hash + Eq + IsEnabled + Copy, V>(m: &IntMap<K, V>) -> (keys: Vec<K>)
    requires
        obeys_key_model::<K>(),
    ensures
        keys@.to_set() == m@.dom(),
        keys@.no_duplicates(),
{
    m.keys().copied().collect()
}

/// Inserts `k`; returns whether it was absent.
/// Calls `HashSet::insert`.
#[verifier::external_body]
pub(crate) fn int_set_insert<K: Hash + Eq + IsEnabled>(s: &mut IntSet<K>, k: K) -> (added: bool)
    requires
        obeys_key_model::<K>(),
    ensures
        final(s)@ == old(s)@.insert(k),
        added == !old(s)@.contains(k),
{
    s.insert(k)
}

/// Removes `k`; returns whether it was present.
/// Calls `HashSet::remove`.
#[verifier::external_body]
pub(crate) fn int_set_remove<K: Hash + Eq + IsEnabled>(s: &mut IntSet<K>, k: &K) -> (removed: bool)
    requires
        obeys_key_model::<K>(),
    ensures
        final(s)@ == old(s)@.remove(*k),
        removed == old(s)@.contains(*k),
{
    s.remove(k)
}

/// Whether `k` is in the set.
/// Calls `HashSet::contains`.
#[verifier::external_body]
pub(crate) fn int_set_contains<K: Hash + Eq + IsEnabled>(s: &IntSet<K>, k: &K) -> (b: bool)
    requires
        obeys_key_model::<K>(),
    ensures
        b == s@.contains(*k),
{
    s.contains(k)
}

/// The entries, each key once, in the map's iteration order.
/// Calls `HashMap::iter` and copies the entries out.
#[verifier::external_body]
pub(crate) fn int_map_pairs<K: Hash + Eq + IsEnabled + Copy, V: Copy>(m: &IntMap<K, V>) -> (pairs: Vec<(K, V)>)
    requires
        obeys_key_model::<K>(),
    ensures
        pairs@.len() == m@.len(),
        forall|i: int| 0 <= i < pairs@.len() ==> m@.contains_key(#[trigger] pairs@[i].0) && m@[pairs@[i].0] == pairs@[i].1,
        forall|i: int, j: int| 0 <= i < j < pairs@.len() ==> #[trigger] pairs@[i].0 != #[trigger] pairs@[j].0,
        forall|k: K| #[trigger] m@.contains_key(k) ==> exists|i: int| 0 <= i < pairs@.len() && pairs@[i].0 == k,
{
    m.iter().map(|(k, v)| (*k, *v)).collect()
}

/// An empty map with room for `capacity` entries.
pub(crate) fn int_map_with_capacity<K: Hash + Eq + IsEnabled, V>(capacity: usize) -> (m: IntMap<K, V>)
    ensures
        m@ == Map::<K, V>::empty(),
{
    let mut m: IntMap<K, V> = IntMap::default();
    m.reserve(capacity);
    m
}

} // verus!
