//! Buckets: members filed under keys, in an `FxIndexMap` of
//! `rustc_data_structures::fx`. The map keeps its keys in the order in which
//! they first came, which is what makes the order of a report repeatable.
//!
//! The verifier has no model of that map, so what its operations do is
//! stated here rather than proved.

use rustc_data_structures::fx::FxIndexMap;
use vstd::prelude::*;

verus! {

/// Members filed under keys. A key is a triple of integers; a member is an
/// index into the sequence that is being grouped.
#[verifier::external_body]
pub struct Buckets {
    map: FxIndexMap<(u64, u8, u32), Vec<usize>>,
}

/// What the buckets hold: the entries of the map in its iteration order,
/// each a key with the members filed under it.
pub uninterp spec fn filed(b: Buckets) -> Seq<((u64, u8, u32), Seq<usize>)>;

/// The first entry with the key `key`, or the number of entries where none
/// has it.
pub open spec fn position(e: Seq<((u64, u8, u32), Seq<usize>)>, key: (u64, u8, u32)) -> int
    decreases e.len(),
{
    if e.len() == 0 {
        0
    } else if e[0].0 == key {
        0
    } else {
        1 + position(e.drop_first(), key)
    }
}

/// The entries after `member` was filed under `key`: it joins the members
/// of the key at their end where the key has an entry, and a new entry with
/// it alone follows the others where the key has none.
pub open spec fn pushed(e: Seq<((u64, u8, u32), Seq<usize>)>, key: (u64, u8, u32), member: usize) -> Seq<
    ((u64, u8, u32), Seq<usize>),
> {
    let p = position(e, key);
    if p < e.len() {
        e.update(p, (key, e[p].1.push(member)))
    } else {
        e.push((key, seq![member]))
    }
}

/// `position` is within bounds, points at an entry with the key where it is
/// an index, and no entry in front of it has the key.
pub proof fn lemma_position(e: Seq<((u64, u8, u32), Seq<usize>)>, key: (u64, u8, u32))
    ensures
        0 <= position(e, key) <= e.len(),
        position(e, key) < e.len() ==> e[position(e, key)].0 == key,
        forall|j: int| 0 <= j < position(e, key) ==> (#[trigger] e[j]).0 != key,
    decreases e.len(),
{
    if e.len() > 0 && e[0].0 != key {
        let rest = e.drop_first();
        lemma_position(rest, key);
        assert forall|j: int| 0 <= j < position(e, key) implies (#[trigger] e[j]).0 != key by {
            if j > 0 {
                assert(e[j] == rest[j - 1]);
            }
        }
    }
}

/// `IndexMap::default`. Claims that the new map has no entries.
#[verifier::external_body]
pub(crate) fn empty_buckets() -> (b: Buckets)
    ensures
        filed(b) == Seq::<((u64, u8, u32), Seq<usize>)>::empty(),
{
    Buckets { map: FxIndexMap::default() }
}

/// `IndexMap::entry` followed by `Entry::or_insert_with`, and a push onto the
/// vector that this yields. Claims that an entry with the key keeps its
/// place and gains the member at its end, and that a key without an entry
/// gets one behind all others.
#[verifier::external_body]
pub(crate) fn file_under(b: &mut Buckets, key: (u64, u8, u32), member: usize)
    ensures
        filed(*final(b)) == pushed(filed(*old(b)), key, member),
{
    b.map.entry(key).or_insert_with(Vec::new).push(member);
}

/// `IndexMap::into_values`, collected. Claims that the values come in the
/// order of the entries, one for each.
#[verifier::external_body]
pub(crate) fn into_groups(b: Buckets) -> (groups: Vec<Vec<usize>>)
    ensures
        groups@.len() == filed(b).len(),
        forall|k: int| 0 <= k < groups@.len() ==> (#[trigger] groups@[k])@ == filed(b)[k].1,
{
    b.map.into_values().collect()
}

} // verus!
