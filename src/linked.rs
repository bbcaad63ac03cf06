//! The parts of `linked_hash_map` that the library relies on, each with what it
//! is trusted to do.

use vstd::prelude::*;
use linked_hash_map::LinkedHashMap;

verus! {

#[verifier::external_type_specification]
#[verifier::external_body]
#[verifier::reject_recursive_types(K)]
#[verifier::reject_recursive_types(V)]
#[verifier::reject_recursive_types(S)]
pub struct ExLinkedHashMap<K, V, S>(LinkedHashMap<K, V, S>);

/// Key and value pairs, oldest first.
pub type Entries = Seq<(Seq<char>, Seq<char>)>;

/// The entries of a linked hash map of strings, oldest first.
pub uninterp spec fn map_entries(m: LinkedHashMap<String, String>) -> Entries;

/// Whether some entry has key `k`.
pub open spec fn has_key(e: Entries, k: Seq<char>) -> bool {
    exists|i: int| 0 <= i < e.len() && (#[trigger] e[i]).0 == k
}

/// Relies on `LinkedHashMap::new`: the map starts empty.
#[verifier::external_body]
pub(crate) fn map_new() -> (m: LinkedHashMap<String, String>)
    ensures
        map_entries(m) == Seq::<(Seq<char>, Seq<char>)>::empty(),
{
    LinkedHashMap::new()
}

/// Relies on `LinkedHashMap::contains_key`: true exactly when an entry has key `k`.
#[verifier::external_body]
pub(crate) fn map_contains(m: &LinkedHashMap<String, String>, k: &str) -> (r: bool)
    ensures
        r == has_key(map_entries(*m), k@),
{
    m.contains_key(k)
}

/// Relies on `LinkedHashMap::insert` with a key not yet present: the entry is
/// added after all others and nothing was replaced.
#[verifier::external_body]
pub(crate) fn map_insert_new(
    m: &mut LinkedHashMap<String, String>,
    k: String,
    v: String,
) -> (r: Option<String>)
    requires
        !has_key(map_entries(*old(m)), k@),
    ensures
        r is None,
        map_entries(*final(m)) == map_entries(*old(m)).push((k@, v@)),
{
    m.insert(k, v)
}

/// Relies on `LinkedHashMap::len`: the number of entries.
#[verifier::external_body]
pub(crate) fn map_len(m: &LinkedHashMap<String, String>) -> (n: usize)
    ensures
        n == map_entries(*m).len(),
{
    m.len()
}

/// Relies on `LinkedHashMap::keys`: every key, oldest first.
#[verifier::external_body]
pub(crate) fn map_keys(m: &LinkedHashMap<String, String>) -> (r: Vec<String>)
    ensures
        r@.len() == map_entries(*m).len(),
        forall|i: int| 0 <= i < r@.len() ==> (#[trigger] r@[i])@ == map_entries(*m)[i].0,
{
    m.keys().cloned().collect()
}

/// Relies on `LinkedHashMap::get`: the value stored under `k`, if any.
#[verifier::external_body]
pub(crate) fn map_get<'a>(m: &'a LinkedHashMap<String, String>, k: &str) -> (r: Option<&'a String>)
    ensures
        match r {
            Some(v) => exists|i: int|
                0 <= i < map_entries(*m).len() && #[trigger] map_entries(*m)[i] == (k@, v@),
            None => !has_key(map_entries(*m), k@),
        },
{
    m.get(k)
}

/// The entries of a linked hash map from strings to positions, oldest first.
pub uninterp spec fn index_entries(m: LinkedHashMap<String, usize>) -> Seq<(Seq<char>, usize)>;

/// Whether some entry of an index has key `k`.
pub open spec fn indexes(e: Seq<(Seq<char>, usize)>, k: Seq<char>) -> bool {
    exists|i: int| 0 <= i < e.len() && (#[trigger] e[i]).0 == k
}

/// Relies on `LinkedHashMap::new`: the index starts empty.
#[verifier::external_body]
pub(crate) fn index_new() -> (m: LinkedHashMap<String, usize>)
    ensures
        index_entries(m) == Seq::<(Seq<char>, usize)>::empty(),
{
    LinkedHashMap::new()
}

/// Relies on `LinkedHashMap::get`: the position stored under `k`, if any.
#[verifier::external_body]
pub(crate) fn index_get<'a>(m: &'a LinkedHashMap<String, usize>, k: &str) -> (r: Option<&'a usize>)
    ensures
        match r {
            Some(v) => exists|i: int|
                0 <= i < index_entries(*m).len() && #[trigger] index_entries(*m)[i] == (k@, *v),
            None => !indexes(index_entries(*m), k@),
        },
{
    m.get(k)
}

/// Relies on `LinkedHashMap::insert` with a key not yet present: the entry is
/// added after all others and nothing was replaced.
#[verifier::external_body]
pub(crate) fn index_insert_new(
    m: &mut LinkedHashMap<String, usize>,
    k: String,
    v: usize,
) -> (r: Option<usize>)
    requires
        !indexes(index_entries(*old(m)), k@),
    ensures
        r is None,
        index_entries(*final(m)) == index_entries(*old(m)).push((k@, v)),
{
    m.insert(k, v)
}

} // verus!
