//! The insertion-ordered hash map behind [`crate::mono::MonoItems`].
//!
//! `rustc_data_structures::fx::FxIndexMap` is `indexmap::IndexMap` with the
//! `FxHasher`. Its keys here are pairs of integers.

use crate::span::Span;
use rustc_data_structures::fx::FxHasher;
use rustc_data_structures::fx::FxIndexMap;
use vstd::prelude::*;

verus! {

/// The map type itself, opaque to the proofs.
#[verifier::external_type_specification]
#[verifier::external_body]
#[verifier::reject_recursive_types(K)]
#[verifier::reject_recursive_types(V)]
#[verifier::reject_recursive_types(S)]
pub struct ExIndexMap<K, V, S>(indexmap::IndexMap<K, V, S>);

/// The hasher that the map is built with.
#[verifier::external_type_specification]
#[verifier::external_body]
pub struct ExFxHasher(FxHasher);

/// The factory of that hasher.
#[verifier::external_type_specification]
#[verifier::external_body]
#[verifier::reject_recursive_types(H)]
pub struct ExBuildHasherDefault<H>(std::hash::BuildHasherDefault<H>);

/// What a map holds: its entries, in the order in which they went in.
pub uninterp spec fn entries(map: FxIndexMap<(u8, usize), Span>) -> Seq<((u8, usize), Span)>;

/// Some entry of `s` has the key `key`.
pub open spec fn has_key(s: Seq<((u8, usize), Span)>, key: (u8, usize)) -> bool {
    exists|i: int| 0 <= i < s.len() && (#[trigger] s[i]).0 == key
}

/// `IndexMap::default`: a map without entries.
#[verifier::external_body]
pub(crate) fn new_map() -> (map: FxIndexMap<(u8, usize), Span>)
    ensures
        entries(map) == Seq::<((u8, usize), Span)>::empty(),
{
    FxIndexMap::default()
}

/// `IndexMap::is_empty`: whether there is no entry.
#[verifier::external_body]
pub(crate) fn is_empty(map: &FxIndexMap<(u8, usize), Span>) -> (res: bool)
    ensures
        res == (entries(*map).len() == 0),
{
    map.is_empty()
}

/// `IndexMap::entry` and `Entry::or_insert`: a new key goes to the end with its
/// value; with a key that is there already the map stays as it is, the value
/// under that key included.
#[verifier::external_body]
pub(crate) fn entry_or_insert(
    map: &mut FxIndexMap<(u8, usize), Span>,
    key: (u8, usize),
    value: Span,
)
    ensures
        entries(*final(map)) == (if has_key(entries(*old(map)), key) {
            entries(*old(map))
        } else {
            entries(*old(map)).push((key, value))
        }),
{
    map.entry(key).or_insert(value);
}

/// `IndexMap::keys`: the keys, in the order of the entries.
#[verifier::external_body]
pub(crate) fn keys(map: &FxIndexMap<(u8, usize), Span>) -> (res: Vec<(u8, usize)>)
    ensures
        res@ == entries(*map).map_values(|e: ((u8, usize), Span)| e.0),
{
    map.keys().cloned().collect()
}

/// `IndexMap::into_iter`: the entries, in their order.
#[verifier::external_body]
pub(crate) fn into_entries(map: FxIndexMap<(u8, usize), Span>) -> (res: Vec<((u8, usize), Span)>)
    ensures
        res@ == entries(map),
{
    map.into_iter().collect()
}

} // verus!
