//! The insertion-ordered map behind the out-of-order buffer.
//!
//! `indexmap::IndexMap` keeps its entries in the order in which their keys were first inserted.
//! Keys and values are plain tuples of integers here, whose equality and hashing are those of the
//! standard library.

use indexmap::IndexMap;
use vstd::prelude::*;

verus! {

/// Author, backlink and log id of a buffered item, each as a pair of words.
pub type RingKey = ((u128, u128), Option<(u128, u128)>, (u128, u128));

/// Identifier of a buffered item, as a pair of words.
pub type RingId = (u128, u128);

#[verifier::external_type_specification]
#[verifier::external_body]
#[verifier::reject_recursive_types(K)]
#[verifier::reject_recursive_types(V)]
#[verifier::reject_recursive_types(S)]
pub struct ExIndexMap<K, V, S>(IndexMap<K, V, S>);

/// The entries of a map, in the order in which the map keeps them.
pub uninterp spec fn ring_entries(map: IndexMap<RingKey, RingId>) -> Seq<(RingKey, RingId)>;

/// Whether `entries` holds an entry under `key`.
pub open spec fn has_key(entries: Seq<(RingKey, RingId)>, key: RingKey) -> bool {
    exists|i: int| 0 <= i < entries.len() && (#[trigger] entries[i]).0 == key
}

/// Whether every key of `entries` occurs once.
pub open spec fn keys_distinct(entries: Seq<(RingKey, RingId)>) -> bool {
    forall|i: int, j: int|
        0 <= i < j < entries.len() ==> (#[trigger] entries[i]).0 != (#[trigger] entries[j]).0
}

/// Creates an empty map.
///
/// Calls `IndexMap::new`, which allocates nothing and holds no entry.
#[verifier::external_body]
pub(crate) fn ring_new() -> (map: IndexMap<RingKey, RingId>)
    ensures
        ring_entries(map) == Seq::<(RingKey, RingId)>::empty(),
{
    IndexMap::new()
}

/// Number of entries.
///
/// Calls `IndexMap::len`, which counts the key-value pairs.
#[verifier::external_body]
pub(crate) fn ring_len(map: &IndexMap<RingKey, RingId>) -> (len: usize)
    ensures
        len == ring_entries(*map).len(),
{
    map.len()
}

/// The key of the first entry.
///
/// Calls `IndexMap::first`, which looks at the entry which comes first in the map's order and returns
/// `None` for an empty map.
#[verifier::external_body]
pub(crate) fn ring_first(map: &IndexMap<RingKey, RingId>) -> (key: Option<RingKey>)
    ensures
        match key {
            Some(key) => ring_entries(*map).len() > 0 && key == ring_entries(*map)[0].0,
            None => ring_entries(*map).len() == 0,
        },
{
    map.first().map(|entry| *entry.0)
}

/// Inserts an entry and returns its index, with the value that it replaced.
///
/// Calls `IndexMap::insert_full`. A key that is already there keeps its place and gets the new
/// value; a new key goes last.
#[verifier::external_body]
pub(crate) fn ring_insert(map: &mut IndexMap<RingKey, RingId>, key: RingKey, id: RingId) -> (result: (
    usize,
    Option<RingId>,
))
    ensures
        match result.1 {
            Some(replaced) => {
                &&& result.0 < ring_entries(*old(map)).len()
                &&& ring_entries(*old(map))[result.0 as int] == (key, replaced)
                &&& ring_entries(*final(map)) == ring_entries(*old(map)).update(
                    result.0 as int,
                    (key, id),
                )
            },
            None => {
                &&& result.0 == ring_entries(*old(map)).len()
                &&& !has_key(ring_entries(*old(map)), key)
                &&& ring_entries(*final(map)) == ring_entries(*old(map)).push((key, id))
            },
        },
{
    map.insert_full(key, id)
}

/// Removes the entry at `index`, shifting all later entries down by one.
///
/// Calls `IndexMap::shift_remove_index`, which returns `None` for an index out of bounds and keeps
/// the relative order of the other entries.
#[verifier::external_body]
pub(crate) fn ring_remove_at(map: &mut IndexMap<RingKey, RingId>, index: usize) -> (removed: Option<
    (RingKey, RingId),
>)
    ensures
        match removed {
            Some(entry) => {
                &&& index < ring_entries(*old(map)).len()
                &&& entry == ring_entries(*old(map))[index as int]
                &&& ring_entries(*final(map)) == ring_entries(*old(map)).remove(index as int)
            },
            None => {
                &&& index >= ring_entries(*old(map)).len()
                &&& ring_entries(*final(map)) == ring_entries(*old(map))
            },
        },
{
    map.shift_remove_index(index)
}

/// Removes the entry under `key`, shifting all later entries down by one, and returns the index it
/// had with its key and value.
///
/// Calls `IndexMap::shift_remove_full`, which returns `None` when the key is not in the map and
/// keeps the relative order of the other entries.
#[verifier::external_body]
pub(crate) fn ring_remove_key(map: &mut IndexMap<RingKey, RingId>, key: &RingKey) -> (removed: Option<
    (usize, RingKey, RingId),
>)
    ensures
        match removed {
            Some((index, found, id)) => {
                &&& index < ring_entries(*old(map)).len()
                &&& found == *key
                &&& ring_entries(*old(map))[index as int] == (*key, id)
                &&& ring_entries(*final(map)) == ring_entries(*old(map)).remove(index as int)
            },
            None => {
                &&& !has_key(ring_entries(*old(map)), *key)
                &&& ring_entries(*final(map)) == ring_entries(*old(map))
            },
        },
{
    map.shift_remove_full(key)
}

/// Copies a map.
///
/// Calls `IndexMap::clone`, which clones every entry in place; the entries are integers.
#[verifier::external_body]
pub(crate) fn ring_clone(map: &IndexMap<RingKey, RingId>) -> (copy: IndexMap<RingKey, RingId>)
    ensures
        ring_entries(copy) == ring_entries(*map),
{
    map.clone()
}

/// Removes every entry.
///
/// Calls `IndexMap::clear`.
#[verifier::external_body]
pub(crate) fn ring_clear(map: &mut IndexMap<RingKey, RingId>)
    ensures
        ring_entries(*final(map)) == Seq::<(RingKey, RingId)>::empty(),
{
    map.clear()
}

} // verus!
