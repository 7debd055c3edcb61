//! The map from each path to its new path, kept in an `indexmap::IndexMap`.

use vstd::prelude::*;
use indexmap::IndexMap;

verus! {

/// `indexmap::IndexMap`, carried opaque; its contents are `path_map_contents`.
#[verifier::external_type_specification]
#[verifier::external_body]
#[verifier::reject_recursive_types(K)]
#[verifier::reject_recursive_types(V)]
#[verifier::reject_recursive_types(S)]
pub struct ExIndexMap<K, V, S>(IndexMap<K, V, S>);

/// A map from paths to their new paths, in insertion order.
pub type PathMap = IndexMap<String, String>;

/// The map that holds nothing.
pub open spec fn no_paths() -> Map<Seq<char>, Seq<char>> {
    Map::empty()
}

/// No keys.
pub open spec fn no_keys() -> Seq<Seq<char>> {
    Seq::empty()
}

/// The key/value pairs that a map from paths to paths holds, keys and values
/// taken as text.
pub uninterp spec fn path_map_contents(m: PathMap) -> Map<Seq<char>, Seq<char>>;

/// The keys of the map as text, in the map's order (each key once).
pub uninterp spec fn path_map_keys(m: PathMap) -> Seq<Seq<char>>;

/// `IndexMap::new`: an empty map.
#[verifier::external_body]
pub(crate) fn path_map_new() -> (r: PathMap)
    ensures
        path_map_contents(r) == no_paths(),
        path_map_keys(r) == no_keys(),
{
    IndexMap::new()
}

/// `IndexMap::insert`: the key now maps to the value; the other entries stay. An
/// existing key keeps its place in the order and gets the new value; a new key
/// comes last.
#[verifier::external_body]
pub(crate) fn path_map_insert(m: &mut PathMap, key: String, value: String)
    ensures
        path_map_contents(*final(m)) == path_map_contents(*old(m)).insert(key@, value@),
        path_map_keys(*final(m)) == if path_map_contents(*old(m)).contains_key(key@) {
            path_map_keys(*old(m))
        } else {
            path_map_keys(*old(m)).push(key@)
        },
{
    m.insert(key, value);
}

/// `IndexMap::get`: the value stored under the key, if there is one.
#[verifier::external_body]
pub(crate) fn path_map_get<'a>(m: &'a PathMap, key: &str) -> (r: Option<
    &'a String,
>)
    ensures
        r is Some <==> path_map_contents(*m).contains_key(key@),
        r matches Some(v) ==> v@ == path_map_contents(*m)[key@],
{
    m.get(key)
}

} // verus!
