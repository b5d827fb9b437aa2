//! The asset registry: an insertion-ordered map from synthetic specifiers to
//! opaque resolved-module handles, kept in an `indexmap::IndexMap`.
//!
//! The map itself is outside code; its contents are named by the
//! uninterpreted `asset_entries`, and the two operations the generator needs
//! are trusted wrappers whose contracts state what the crate's documentation
//! promises of them.

use vstd::prelude::*;
use indexmap::IndexMap;

verus! {

/// Declares `indexmap::IndexMap` to the verifier; values of it are opaque
/// and are reasoned about only through `asset_entries` and the wrappers
/// below.
#[verifier::external_type_specification]
#[verifier::external_body]
#[verifier::reject_recursive_types(K)]
#[verifier::reject_recursive_types(V)]
#[verifier::reject_recursive_types(S)]
pub struct ExIndexMap<K, V, S>(IndexMap<K, V, S>);

/// The entries of an asset registry, as the sequence of key/handle pairs in
/// insertion order.
pub uninterp spec fn asset_entries(m: IndexMap<String, u64>) -> Seq<(Seq<char>, u64)>;

/// Whether some entry of `entries` has the key `key`.
pub open spec fn has_key(entries: Seq<(Seq<char>, u64)>, key: Seq<char>) -> bool {
    exists|k: int| 0 <= k < entries.len() && entries[k].0 == key
}

/// Relies on `IndexMap::new`: creates an empty map.
#[verifier::external_body]
pub fn asset_map_new() -> (m: IndexMap<String, u64>)
    ensures
        asset_entries(m) == Seq::<(Seq<char>, u64)>::empty(),
{
    IndexMap::new()
}

/// Relies on `IndexMap::insert`: if no equivalent key exists, the pair is
/// inserted last in order and `None` is returned; otherwise the key keeps
/// its place, its value is replaced, and the older value is returned.
#[verifier::external_body]
pub fn asset_map_insert(m: &mut IndexMap<String, u64>, key: String, value: u64) -> (prev: Option<
    u64,
>)
    ensures
        !has_key(asset_entries(*old(m)), key@) ==> {
            &&& asset_entries(*final(m)) == asset_entries(*old(m)).push((key@, value))
            &&& prev is None
        },
        has_key(asset_entries(*old(m)), key@) ==> exists|k: int|
            {
                &&& 0 <= k < asset_entries(*old(m)).len()
                &&& asset_entries(*old(m))[k].0 == key@
                &&& asset_entries(*final(m)) == asset_entries(*old(m)).update(
                    k,
                    (asset_entries(*old(m))[k].0, value),
                )
                &&& prev == Some(asset_entries(*old(m))[k].1)
            },
{
    m.insert(key, value)
}

} // verus!
