//! Trusted interface to the hash-backed key index.
//!
//! A `Document` keeps its entries in a vector of slots and finds the
//! slot of a key through a `linked_hash_map::LinkedHashMap` from the
//! key to the slot number.  Only the thin wrappers below touch the
//! outside crate; everything that uses them is verified against their
//! contracts.

use vstd::prelude::*;

use linked_hash_map::LinkedHashMap;

verus! {

/// The outside map type that backs a document's key index.
pub type KeyIndex = LinkedHashMap<String, usize>;

#[verifier::external_type_specification]
#[verifier::external_body]
#[verifier::reject_recursive_types(K)]
#[verifier::reject_recursive_types(V)]
#[verifier::reject_recursive_types(S)]
pub struct ExLinkedHashMap<K, V, S>(LinkedHashMap<K, V, S>);

/// The view of an empty key index.
pub open spec fn key_index_empty() -> Map<Seq<char>, usize> {
    Map::empty()
}

/// The contents of a key index: the slot number stored under each key.
pub uninterp spec fn key_index_view(m: KeyIndex) -> Map<Seq<char>, usize>;

/// Relies on linked_hash_map::LinkedHashMap::new: creates an empty map.
#[verifier::external_body]
pub(crate) fn key_index_new() -> (m: KeyIndex)
    ensures
        key_index_view(m) == key_index_empty(),
{
    LinkedHashMap::new()
}

/// Relies on linked_hash_map::LinkedHashMap::get: returns the value
/// stored under the key equal to `k`, if there is one.
#[verifier::external_body]
pub(crate) fn key_index_get(m: &KeyIndex, k: &str) -> (r: Option<usize>)
    ensures
        r == if key_index_view(*m).contains_key(k@) {
            Some(key_index_view(*m)[k@])
        } else {
            None::<usize>
        },
{
    m.get(k).copied()
}

/// Relies on linked_hash_map::LinkedHashMap::insert: stores `v` under
/// `k`, replacing the value of an existing entry with an equal key.
#[verifier::external_body]
pub(crate) fn key_index_insert(m: &mut KeyIndex, k: String, v: usize)
    ensures
        key_index_view(*final(m)) == key_index_view(*old(m)).insert(k@, v),
{
    m.insert(k, v);
}

} // verus!
