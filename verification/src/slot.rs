//! Access in place to a value that a hash map holds.

use std::collections::hash_map::Entry;
use std::collections::HashMap;
use std::hash::Hash;
use vstd::prelude::*;
use vstd::std_specs::hash::obeys_key_model;

verus! {

broadcast use vstd::std_specs::hash::group_hash_axioms;

/// The value that `m` holds under `k`, to be changed in place: what the
/// caller leaves behind the reference is what the map holds under `k`
/// afterwards, with every other entry as before. `None`, and the map as
/// before, where the map has no such key.
pub(crate) fn slot_mut<'a, K: Eq + Hash, V>(m: &'a mut HashMap<K, V>, k: K) -> (r: Option<
    &'a mut V,
>)
    requires
        obeys_key_model::<K>(),
    ensures
        match r {
            Some(v) => old(m)@.contains_key(k) && *v == old(m)@[k] && final(m)@ == old(m)@.insert(
                k,
                *final(v),
            ),
            None => !old(m)@.contains_key(k) && final(m)@ == old(m)@,
        },
{
    match m.entry(k) {
        Entry::Occupied(occupied) => Some(occupied.into_mut()),
        Entry::Vacant(_) => None,
    }
}

} // verus!
