//! The symbol resolution table: a `rustc_hash` map from symbols to
//! layer-key indices.
//!
//! `FxHashMap` is `std::collections::HashMap` with the deterministic
//! `FxBuildHasher`.  vstd ties its `HashMap` contracts to hashers it knows
//! to be valid, so the two operations used here carry their own contracts:
//! plain map semantics over the map's abstract `Map<char, u16>` view.

use rustc_hash::FxHashMap;
use vstd::prelude::*;

verus! {

/// `rustc_hash::FxBuildHasher`: the deterministic hasher state behind
/// `FxHashMap`.
#[verifier::external_type_specification]
#[verifier::external_body]
pub struct ExFxBuildHasher(rustc_hash::FxBuildHasher);

/// An empty symbol map (vstd specifies `HashMap::default` for any
/// defaultable hasher).
pub(crate) fn symbol_map_new() -> (m: FxHashMap<char, u16>)
    ensures
        m@ == Map::<char, u16>::empty(),
{
    FxHashMap::default()
}

/// Relies on `HashMap::insert` (with `rustc_hash`'s deterministic
/// hasher): standard map semantics, keys compared by `char` equality.
#[verifier::external_body]
pub(crate) fn symbol_map_insert(m: &mut FxHashMap<char, u16>, k: char, v: u16)
    ensures
        final(m)@ == old(m)@.insert(k, v),
{
    m.insert(k, v);
}

/// Relies on `HashMap::get` (with `rustc_hash`'s deterministic hasher):
/// returns the value stored under the key, if any.
#[verifier::external_body]
pub(crate) fn symbol_map_get(m: &FxHashMap<char, u16>, k: char) -> (r: Option<u16>)
    ensures
        r == (if m@.contains_key(k) {
            Some(m@[k])
        } else {
            None::<u16>
        }),
{
    m.get(&k).copied()
}

} // verus!
