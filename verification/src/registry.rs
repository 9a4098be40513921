//! The ordered map behind a scheme.
//!
//! The registry is an `indexmap::IndexMap` from field name to field type,
//! hashed with FNV. Verus does not look inside it: this module names what the
//! map holds and states, for each of its methods that the scheme calls, what
//! the method does to those contents. None of these statements is proved.

use fnv::FnvBuildHasher;
use indexmap::IndexMap;
use vstd::prelude::*;

use crate::types::Type;

verus! {

/// `indexmap::IndexMap`, opaque to the verifier.
#[verifier::external_type_specification]
#[verifier::external_body]
#[verifier::reject_recursive_types(K)]
#[verifier::reject_recursive_types(V)]
#[verifier::reject_recursive_types(S)]
pub struct ExIndexMap<K, V, S>(indexmap::IndexMap<K, V, S>);

/// `fnv::FnvHasher`, opaque to the verifier.
#[verifier::external_type_specification]
#[verifier::external_body]
pub struct ExFnvHasher(fnv::FnvHasher);

/// `std::hash::BuildHasherDefault`, opaque to the verifier.
#[verifier::external_type_specification]
#[verifier::external_body]
#[verifier::reject_recursive_types(H)]
pub struct ExBuildHasherDefault<H>(core::hash::BuildHasherDefault<H>);

/// The key-value pairs of a registry in insertion order, each name as its
/// sequence of characters.
pub uninterp spec fn entries(map: &IndexMap<String, Type, FnvBuildHasher>) -> Seq<(Seq<char>, Type)>;

/// `IndexMap::default`: a map that holds nothing.
#[verifier::external_body]
pub(crate) fn registry_new() -> (map: IndexMap<String, Type, FnvBuildHasher>)
    ensures
        entries(&map) == Seq::<(Seq<char>, Type)>::empty(),
{
    IndexMap::default()
}

/// `IndexMap::len`: the number of pairs.
#[verifier::external_body]
pub(crate) fn registry_len(map: &IndexMap<String, Type, FnvBuildHasher>) -> (n: usize)
    ensures
        n == entries(map).len(),
{
    map.len()
}

/// `IndexMap::insert`. A name that the map does not hold yet is appended,
/// last in order, and `None` comes back. For a name that it holds, the pair
/// keeps its place, takes the new type, and the old type comes back.
#[verifier::external_body]
pub(crate) fn registry_insert(
    map: &mut IndexMap<String, Type, FnvBuildHasher>,
    name: String,
    ty: Type,
) -> (previous: Option<Type>)
    ensures
        match previous {
            None => {
                &&& forall|i: int|
                    0 <= i < entries(old(map)).len() ==> (#[trigger] entries(old(map))[i]).0
                        != name@
                &&& entries(final(map)) == entries(old(map)).push((name@, ty))
            },
            Some(before) => exists|i: int|
                {
                    &&& 0 <= i < entries(old(map)).len()
                    &&& #[trigger] entries(old(map))[i] == (name@, before)
                    &&& entries(final(map)) == entries(old(map)).update(i, (name@, ty))
                },
        },
{
    map.insert(name, ty)
}

/// `IndexMap::get_full`: the slot and the type of the pair whose name is
/// `name`, or `None` where no pair has that name.
#[verifier::external_body]
pub(crate) fn registry_get_full(
    map: &IndexMap<String, Type, FnvBuildHasher>,
    name: &str,
) -> (found: Option<(usize, Type)>)
    ensures
        match found {
            Some((index, ty)) => index < entries(map).len() && entries(map)[index as int] == (
                name@,
                ty,
            ),
            None => forall|i: int|
                0 <= i < entries(map).len() ==> (#[trigger] entries(map)[i]).0 != name@,
        },
{
    match map.get_full(name) {
        Some((index, _, ty)) => Some((index, *ty)),
        None => None,
    }
}

/// `IndexMap::get_index`: the pair in slot `index`, or `None` where the map
/// has no such slot.
#[verifier::external_body]
pub(crate) fn registry_get_index<'a>(
    map: &'a IndexMap<String, Type, FnvBuildHasher>,
    index: usize,
) -> (pair: Option<(&'a String, Type)>)
    ensures
        match pair {
            Some((name, ty)) => index < entries(map).len() && entries(map)[index as int] == (
                name@,
                ty,
            ),
            None => index >= entries(map).len(),
        },
{
    match map.get_index(index) {
        Some((name, ty)) => Some((name, *ty)),
        None => None,
    }
}

} // verus!
