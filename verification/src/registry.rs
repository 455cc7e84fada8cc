//! The name registry: an insertion-ordered map from a node's name to its
//! declaration index, kept by `indexmap::IndexMap`. The map itself is
//! outside code; its contents are abstracted as a `Map` from name views to
//! indices, and the three operations the graph needs are specified here.

use vstd::prelude::*;

verus! {

#[verifier::external_type_specification]
#[verifier::external_body]
#[verifier::reject_recursive_types(K)]
#[verifier::reject_recursive_types(V)]
#[verifier::reject_recursive_types(S)]
pub struct ExIndexMap<K, V, S>(indexmap::IndexMap<K, V, S>);

/// What the registry holds: each registered name, as its character
/// sequence, mapped to the declaration index it was registered under.
pub uninterp spec fn registry_entries(m: indexmap::IndexMap<String, usize>) -> Map<
    Seq<char>,
    usize,
>;

/// The registry holds no entry at all.
pub open spec fn registry_is_empty(m: indexmap::IndexMap<String, usize>) -> bool {
    registry_entries(m) == Map::<Seq<char>, usize>::empty()
}

/// Relies on `indexmap::IndexMap::new`: the new map is empty.
#[verifier::external_body]
pub(crate) fn registry_new() -> (m: indexmap::IndexMap<String, usize>)
    ensures
        registry_is_empty(m),
{
    indexmap::IndexMap::new()
}

/// Relies on `indexmap::IndexMap::insert`: after the call the key maps to
/// the given value, and every other key is bound as before. (`String`
/// equality in `indexmap` is character-for-character equality, so keys
/// coincide exactly when their views do.)
#[verifier::external_body]
pub(crate) fn registry_insert(m: &mut indexmap::IndexMap<String, usize>, name: String, index: usize)
    ensures
        registry_entries(*final(m)) == registry_entries(*old(m)).insert(name@, index),
{
    m.insert(name, index);
}

/// Relies on `indexmap::IndexMap::get`: returns the value bound to the key
/// when one is, and `None` otherwise.
#[verifier::external_body]
pub(crate) fn registry_get(m: &indexmap::IndexMap<String, usize>, name: &String) -> (r: Option<usize>)
    ensures
        match r {
            Some(index) => registry_entries(*m).dom().contains(name@) && registry_entries(*m)[
                name@
            ] == index,
            None => !registry_entries(*m).dom().contains(name@),
        },
{
    match m.get(name) {
        Some(index) => Some(*index),
        None => None,
    }
}

} // verus!
