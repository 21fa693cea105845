//! The hash collections that the passes keep their state in: hash sets and
//! hash maps with the fast, unseeded hasher of `rustc_data_structures::fx`.
//!
//! The verifier has no model of that hasher, so the operations on these
//! collections are stated here rather than proved.

use rustc_data_structures::fx::{FxHashMap, FxHashSet, FxHasher};
use vstd::prelude::*;
use crate::scope::Declaration;

verus! {

/// `rustc_data_structures::fx::FxHasher`, carried through as an opaque type.
#[verifier::external_type_specification]
#[verifier::external_body]
pub struct ExFxHasher(FxHasher);

/// `core::hash::BuildHasherDefault`, carried through as an opaque type.
#[verifier::external_type_specification]
#[verifier::external_body]
#[verifier::reject_recursive_types(H)]
pub struct ExBuildHasherDefault<H>(core::hash::BuildHasherDefault<H>);

/// `HashSet::insert` on an `FxHashSet<usize>`. Claims that the set holds
/// afterwards what it held before and `value`: the hasher is a pure function
/// of the bytes it is fed, and equal integers hash alike.
#[verifier::external_body]
pub(crate) fn set_insert(set: &mut FxHashSet<usize>, value: usize)
    ensures
        final(set)@ == old(set)@.insert(value),
{
    set.insert(value);
}

/// `HashSet::contains` on an `FxHashSet<usize>`. Claims that the answer is
/// whether `value` is among what the set holds.
#[verifier::external_body]
pub(crate) fn set_contains(set: &FxHashSet<usize>, value: usize) -> (r: bool)
    ensures
        r == set@.contains(value),
{
    set.contains(&value)
}

/// `HashMap::insert` on an `FxHashMap` keyed by `u32`. Claims that the map
/// holds afterwards what it held before, but `value` under `key`.
#[verifier::external_body]
pub(crate) fn map_insert(map: &mut FxHashMap<u32, Declaration>, key: u32, value: Declaration)
    ensures
        final(map)@ == old(map)@.insert(key, value),
{
    map.insert(key, value);
}

/// `HashMap::get` on an `FxHashMap` keyed by `u32`. Claims that the answer
/// is a copy of the value held under `key`, and `None` where there is none.
#[verifier::external_body]
pub(crate) fn map_get(map: &FxHashMap<u32, Declaration>, key: u32) -> (r: Option<Declaration>)
    ensures
        r == (if map@.contains_key(key) {
            Some(map@[key])
        } else {
            None
        }),
{
    map.get(&key).copied()
}

} // verus!
