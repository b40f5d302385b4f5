//! The watch list: the names of the category groups that a report covers,
//! kept by an `IndexMap` in the order in which they were entered. What the
//! map holds for each name is a display hint that the aggregation never
//! reads.

use vstd::prelude::*;

verus! {

/// `indexmap::IndexMap`, carried through as it is: nothing is read from a
/// map but its keys.
#[verifier::external_type_specification]
#[verifier::external_body]
#[verifier::reject_recursive_types(K)]
#[verifier::reject_recursive_types(V)]
#[verifier::reject_recursive_types(S)]
pub struct ExIndexMap<K, V, S>(indexmap::IndexMap<K, V, S>);

/// The keys of a watch list, in the order of the map.
pub uninterp spec fn watch_list_keys(watch_list: indexmap::IndexMap<String, String>) -> Seq<
    Seq<char>,
>;

/// `IndexMap::keys`, which hands out the keys of the map in the map's order;
/// a map holds each key once.
#[verifier::external_body]
pub(crate) fn watch_list_names(watch_list: &indexmap::IndexMap<String, String>) -> (names: Vec<
    String,
>)
    ensures
        names.deep_view() == watch_list_keys(*watch_list),
        names.deep_view().no_duplicates(),
{
    watch_list.keys().cloned().collect()
}

} // verus!
