//! The store as a mathematical map, and what each operation does to it.

use vstd::prelude::*;
use crate::text::starts_with;

verus! {

/// The map after `key` was created: a key that is there keeps its bytes, a new
/// one starts empty.
pub open spec fn created(contents: Map<Seq<char>, Seq<u8>>, key: Seq<char>) -> Map<
    Seq<char>,
    Seq<u8>,
> {
    if contents.contains_key(key) {
        contents
    } else {
        contents.insert(key, Seq::<u8>::empty())
    }
}

/// The map after `chunk` was appended to `key`: nothing changes where the key
/// is absent.
pub open spec fn appended(
    contents: Map<Seq<char>, Seq<u8>>,
    key: Seq<char>,
    chunk: Seq<u8>,
) -> Map<Seq<char>, Seq<u8>> {
    if contents.contains_key(key) {
        contents.insert(key, contents[key] + chunk)
    } else {
        contents
    }
}

/// The map after `key` was deleted.
pub open spec fn deleted(contents: Map<Seq<char>, Seq<u8>>, key: Seq<char>) -> Map<
    Seq<char>,
    Seq<u8>,
> {
    contents.remove(key)
}

/// What a lookup of `key` sees: its bytes, or nothing.
pub open spec fn lookup(contents: Map<Seq<char>, Seq<u8>>, key: Seq<char>) -> Option<Seq<u8>> {
    if contents.contains_key(key) {
        Some(contents[key])
    } else {
        None
    }
}

/// The keys of the map that begin with `prefix`, byte for byte.
pub open spec fn keys_matching(contents: Map<Seq<char>, Seq<u8>>, prefix: Seq<char>) -> Set<
    Seq<char>,
> {
    Set::new(|key: Seq<char>| contents.contains_key(key) && starts_with(key, prefix))
}

/// Whether `keys` names each member of `wanted` exactly once and nothing else.
pub open spec fn lists_exactly(keys: Seq<Seq<char>>, wanted: Set<Seq<char>>) -> bool {
    &&& keys.no_duplicates()
    &&& forall|i: int| 0 <= i < keys.len() ==> wanted.contains(#[trigger] keys[i])
    &&& forall|key: Seq<char>| wanted.contains(key) ==> keys.contains(key)
}

/// Creating a key that is there changes nothing: its bytes stay as they are.
pub proof fn lemma_create_keeps_existing(contents: Map<Seq<char>, Seq<u8>>, key: Seq<char>)
    requires
        contents.contains_key(key),
    ensures
        created(contents, key) == contents,
        lookup(created(contents, key), key) == Some(contents[key]),
{
}

/// After a delete the key is not found, and deleting an absent key changes
/// nothing.
pub proof fn lemma_delete_then_lookup(contents: Map<Seq<char>, Seq<u8>>, key: Seq<char>)
    ensures
        lookup(deleted(contents, key), key) is None,
        !contents.contains_key(key) ==> deleted(contents, key) == contents,
{
}

/// A deleted key can be created again, and then holds an empty value.
pub proof fn lemma_delete_then_create(contents: Map<Seq<char>, Seq<u8>>, key: Seq<char>)
    ensures
        lookup(created(deleted(contents, key), key), key) == Some(Seq::<u8>::empty()),
{
}

/// An append never shortens a value, and keeps what was there as its start.
pub proof fn lemma_append_only_grows(
    contents: Map<Seq<char>, Seq<u8>>,
    key: Seq<char>,
    chunk: Seq<u8>,
    other: Seq<char>,
)
    requires
        contents.contains_key(other),
    ensures
        appended(contents, key, chunk).contains_key(other),
        contents[other].is_prefix_of(appended(contents, key, chunk)[other]),
        other != key ==> appended(contents, key, chunk)[other] == contents[other],
{
}

/// The keys that exist do not depend on the order in which they were created.
pub proof fn lemma_creation_order_is_immaterial(
    contents: Map<Seq<char>, Seq<u8>>,
    first: Seq<char>,
    second: Seq<char>,
)
    ensures
        created(created(contents, first), second) == created(created(contents, second), first),
{
}

/// An empty prefix matches every key.
pub proof fn lemma_empty_prefix_matches_all(contents: Map<Seq<char>, Seq<u8>>)
    ensures
        keys_matching(contents, Seq::<char>::empty()) == contents.dom(),
{
}

} // verus!
