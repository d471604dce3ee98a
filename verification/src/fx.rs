//! Maps from numbers, with the fast hasher of `rustc_hash`.

use rustc_hash::{FxBuildHasher, FxHashMap};
use vstd::prelude::*;
use vstd::std_specs::hash::*;

verus! {

/// The hasher builder of `rustc_hash`.
#[verifier::external_type_specification]
#[verifier::external_body]
pub struct ExFxBuildHasher(FxBuildHasher);

/// Calls `FxHashMap::default`: a new map is empty.
#[verifier::external_body]
pub(crate) fn fx_new<V>() -> (r: FxHashMap<u64, V>)
    ensures
        r@.dom() == Set::<u64>::empty(),
{
    FxHashMap::default()
}

/// Calls `HashMap::get` on a map with the Fx hasher and copies what it finds.
/// `u64` hashes and compares by its value, so the map is one of numbers.
#[verifier::external_body]
pub(crate) fn fx_get<V: Copy>(m: &FxHashMap<u64, V>, key: u64) -> (r: Option<V>)
    ensures
        r == (if m@.contains_key(key) {
            Some(m@[key])
        } else {
            None
        }),
{
    m.get(&key).copied()
}

/// Calls `HashMap::insert` on a map with the Fx hasher: the key has the new
/// value, whatever it had before, and what it had is handed back.
#[verifier::external_body]
pub(crate) fn fx_insert<V>(m: &mut FxHashMap<u64, V>, key: u64, value: V) -> (r: Option<V>)
    ensures
        final(m)@ == old(m)@.insert(key, value),
        r == (if old(m)@.contains_key(key) {
            Some(old(m)@[key])
        } else {
            None
        }),
{
    m.insert(key, value)
}

/// Calls `HashMap::remove` on a map with the Fx hasher: the key is gone, and
/// what it had is handed back.
#[verifier::external_body]
pub(crate) fn fx_remove<V>(m: &mut FxHashMap<u64, V>, key: u64) -> (r: Option<V>)
    ensures
        final(m)@ == old(m)@.remove(key),
        r == (if old(m)@.contains_key(key) {
            Some(old(m)@[key])
        } else {
            None
        }),
{
    m.remove(&key)
}

/// Calls `HashMap::len` on a map with the Fx hasher: the number of its keys.
#[verifier::external_body]
pub(crate) fn fx_len<V>(m: &FxHashMap<u64, V>) -> (r: usize)
    ensures
        r == m@.dom().len(),
{
    m.len()
}

/// Calls `HashMap::keys` on a map with the Fx hasher and collects them: each
/// key once, in an order that is the map's own.
#[verifier::external_body]
pub(crate) fn fx_keys<V>(m: &FxHashMap<u64, V>) -> (r: Vec<u64>)
    ensures
        r@.no_duplicates(),
        r@.to_set() == m@.dom(),
{
    m.keys().copied().collect()
}

} // verus!
