//! Hash maps and sets with the Fx hasher, keyed by integers.
//!
//! `rustc_hash::FxHashMap` and `rustc_hash::FxHashSet` are the standard
//! `HashMap` and `HashSet` with `FxBuildHasher` as their hasher. That
//! hasher is deterministic and unseeded, so a map or set built with it over
//! keys that hash and compare by their value behaves as the mathematical
//! map or set of its view. The functions of this module are trusted: their
//! bodies are not verified, and their contracts restate what the
//! documentation of the collections promises.

use rustc_hash::FxBuildHasher;
use rustc_hash::FxHashMap;
use rustc_hash::FxHashSet;
use std::hash::Hash;
use vstd::prelude::*;
use vstd::std_specs::hash::obeys_key_model;

verus! {

/// `rustc_hash::FxBuildHasher`, the builder of Fx hashers: a unit value
/// that is carried along and never looked into.
#[verifier::external_type_specification]
#[verifier::external_body]
pub struct ExFxBuildHasher(FxBuildHasher);

/// `HashMap::get` on an `FxHashMap`, copied out: the value stored under
/// `key`, if any.
#[verifier::external_body]
pub(crate) fn map_get<K: Hash + Eq, V: Copy>(m: &FxHashMap<K, V>, key: K) -> (r: Option<V>)
    requires
        obeys_key_model::<K>(),
    ensures
        r == (if m@.contains_key(key) {
            Some(m@[key])
        } else {
            None
        }),
{
    m.get(&key).copied()
}

/// `HashMap::insert` on an `FxHashMap`: afterwards `key` maps to `value`
/// and every other key is as before.
#[verifier::external_body]
pub(crate) fn map_insert<K: Hash + Eq, V>(m: &mut FxHashMap<K, V>, key: K, value: V)
    requires
        obeys_key_model::<K>(),
    ensures
        final(m)@ == old(m)@.insert(key, value),
{
    m.insert(key, value);
}

/// `HashSet::contains` on an `FxHashSet`: whether the set holds `key`.
#[verifier::external_body]
pub(crate) fn set_contains<K: Hash + Eq>(s: &FxHashSet<K>, key: K) -> (r: bool)
    requires
        obeys_key_model::<K>(),
    ensures
        r == s@.contains(key),
{
    s.contains(&key)
}

/// `HashSet::insert` on an `FxHashSet`: afterwards the set holds `key`
/// besides what it held.
#[verifier::external_body]
pub(crate) fn set_insert<K: Hash + Eq>(s: &mut FxHashSet<K>, key: K)
    requires
        obeys_key_model::<K>(),
    ensures
        final(s)@ == old(s)@.insert(key),
{
    s.insert(key);
}

/// `HashSet::remove` on an `FxHashSet`: afterwards the set no longer
/// holds `key`, and holds whatever else it held.
#[verifier::external_body]
pub(crate) fn set_remove<K: Hash + Eq>(s: &mut FxHashSet<K>, key: K)
    requires
        obeys_key_model::<K>(),
    ensures
        final(s)@ == old(s)@.remove(key),
{
    s.remove(&key);
}

} // verus!
