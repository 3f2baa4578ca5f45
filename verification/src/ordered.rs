//! The insertion-ordered maps that the transformer and the schema carry,
//! backed by `linked_hash_map::LinkedHashMap`.  The maps are opaque to the
//! verifier; `param_map_entries` and `opt_map_entries` name their contents
//! as ordered entry sequences, and the wrappers below state how the crate's
//! operations act on those sequences, as its source shows:
//! `new` makes an empty map, `len` counts entries, `iter` visits entries in
//! insertion order, and `insert` appends a new key or, for a present key,
//! replaces the value and moves the entry to the back, returning the old
//! value.

use crate::se_parser::{Param, ParamV};
use linked_hash_map::LinkedHashMap;
use vstd::prelude::*;

verus! {

#[verifier::external_type_specification]
#[verifier::external_body]
#[verifier::reject_recursive_types(K)]
#[verifier::reject_recursive_types(V)]
#[verifier::reject_recursive_types(S)]
pub struct ExLinkedHashMap<K, V, S>(LinkedHashMap<K, V, S>);

/// The entries of a parameter map, in iteration order.
pub uninterp spec fn param_map_entries(m: LinkedHashMap<String, Param>) -> Seq<(Seq<char>, ParamV)>;

/// The entries of an optional-type-tag map, in iteration order.
pub uninterp spec fn opt_map_entries(m: LinkedHashMap<String, Option<String>>) -> Seq<
    (Seq<char>, Option<Seq<char>>),
>;

/// Whether an entry sequence holds a key.
pub open spec fn has_key<T>(es: Seq<(Seq<char>, T)>, k: Seq<char>) -> bool {
    exists|i: int| 0 <= i < es.len() && (#[trigger] es[i]).0 == k
}

/// The first position of a key in an entry sequence.
pub open spec fn first_index_of<T>(es: Seq<(Seq<char>, T)>, k: Seq<char>) -> int
    decreases es.len(),
{
    if es.len() == 0 {
        0
    } else if es[0].0 == k {
        0
    } else {
        1 + first_index_of(es.drop_first(), k)
    }
}

/// The keys of an entry sequence, in order.
pub open spec fn entry_keys<T>(es: Seq<(Seq<char>, T)>) -> Seq<Seq<char>> {
    es.map_values(|e: (Seq<char>, T)| e.0)
}

/// Relies on `LinkedHashMap::new`: creates an empty map.
#[verifier::external_body]
pub fn param_map_new() -> (r: LinkedHashMap<String, Param>)
    ensures
        param_map_entries(r) == Seq::<(Seq<char>, ParamV)>::empty(),
{
    LinkedHashMap::new()
}

/// Relies on `LinkedHashMap::len`: the number of entries in the map.
#[verifier::external_body]
pub fn param_map_len(m: &LinkedHashMap<String, Param>) -> (r: usize)
    ensures
        r == param_map_entries(*m).len(),
{
    m.len()
}

/// Relies on `LinkedHashMap::insert`: a fresh key is appended at the back; a
/// present key keeps the map's other entries, takes the new value, moves to
/// the back, and hands the old value out.
#[verifier::external_body]
pub fn param_map_insert(m: &mut LinkedHashMap<String, Param>, k: String, v: Param) -> (r: Option<
    Param,
>)
    ensures
        r is Some <==> has_key(param_map_entries(*old(m)), k@),
        has_key(param_map_entries(*old(m)), k@) ==> param_map_entries(*final(m))
            == param_map_entries(*old(m)).remove(
            first_index_of(param_map_entries(*old(m)), k@),
        ).push((k@, v@)),
        has_key(param_map_entries(*old(m)), k@) ==> (r matches Some(o) && o@ == param_map_entries(
            *old(m),
        )[first_index_of(param_map_entries(*old(m)), k@)].1),
        !has_key(param_map_entries(*old(m)), k@) ==> param_map_entries(*final(m))
            == param_map_entries(*old(m)).push((k@, v@)),
{
    m.insert(k, v)
}

/// Relies on `LinkedHashMap::iter`: visits the entries in insertion order.
#[verifier::external_body]
pub fn param_map_entries_vec(m: &LinkedHashMap<String, Param>) -> (r: Vec<(String, Param)>)
    ensures
        r.deep_view() == param_map_entries(*m),
{
    m.iter().map(|(k, v)| (k.clone(), v.clone())).collect()
}

/// Relies on `LinkedHashMap::new`: creates an empty map.
#[verifier::external_body]
pub fn opt_map_new() -> (r: LinkedHashMap<String, Option<String>>)
    ensures
        opt_map_entries(r) == Seq::<(Seq<char>, Option<Seq<char>>)>::empty(),
{
    LinkedHashMap::new()
}

/// Relies on `LinkedHashMap::insert`: as for the parameter map.
#[verifier::external_body]
pub fn opt_map_insert(
    m: &mut LinkedHashMap<String, Option<String>>,
    k: String,
    v: Option<String>,
) -> (r: Option<Option<String>>)
    ensures
        r is Some <==> has_key(opt_map_entries(*old(m)), k@),
        has_key(opt_map_entries(*old(m)), k@) ==> opt_map_entries(*final(m)) == opt_map_entries(
            *old(m),
        ).remove(first_index_of(opt_map_entries(*old(m)), k@)).push((k@, v.deep_view())),
        has_key(opt_map_entries(*old(m)), k@) ==> (r matches Some(o) && o.deep_view()
            == opt_map_entries(*old(m))[first_index_of(opt_map_entries(*old(m)), k@)].1),
        !has_key(opt_map_entries(*old(m)), k@) ==> opt_map_entries(*final(m)) == opt_map_entries(
            *old(m),
        ).push((k@, v.deep_view())),
{
    m.insert(k, v)
}

/// Relies on `LinkedHashMap::iter`: visits the entries in insertion order.
#[verifier::external_body]
pub fn opt_map_entries_vec(m: &LinkedHashMap<String, Option<String>>) -> (r: Vec<
    (String, Option<String>),
>)
    ensures
        r.deep_view() == opt_map_entries(*m),
{
    m.iter().map(|(k, v)| (k.clone(), v.clone())).collect()
}

} // verus!
