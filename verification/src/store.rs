//! The store: text keys, each with an append-only string of bytes.

use actix_web::web::BytesMut;
use vstd::prelude::*;
use vstd::slice::slice_to_vec;
use crate::buffer::{buffer_bytes, growth_limit};
use crate::model::{appended, created, deleted, keys_matching, lists_exactly};
use crate::text::{same_text, starts_with, text_starts_with};

verus! {

/// One key with the bytes stored under it.
struct Entry {
    key: String,
    bytes: BytesMut,
}

/// A mapping from keys to byte strings.
///
/// The entries are kept in the order of their creation, and no key occurs
/// twice. The view is the map from each key to its bytes; which entry came
/// first is no part of it.
///
/// An operation that changes the entries takes them out of the store, changes
/// them and puts them back, so that the store is at no time seen with a key
/// twice.
pub struct Store {
    entries: Vec<Entry>,
}

/// What [`Store::create_if_absent`] did.
#[derive(Clone, Copy, PartialEq, Eq, Debug, Structural)]
pub enum Creation {
    /// The key was absent and now holds an empty value.
    Created,
    /// The key was there already; nothing changed.
    AlreadyExists,
}

/// What [`Store::append`] did.
#[derive(Clone, Copy, PartialEq, Eq, Debug, Structural)]
pub enum Appending {
    /// The chunk now ends the key's value.
    Appended,
    /// The key is absent; nothing changed.
    Absent,
}

/// What [`Store::delete`] did.
#[derive(Clone, Copy, PartialEq, Eq, Debug, Structural)]
pub enum Removal {
    /// The key and its value are gone.
    Removed,
    /// The key was absent; nothing changed.
    Absent,
}

/// Whether entry `i` is the one for `key`.
spec fn holds_at(entries: Seq<Entry>, key: Seq<char>, i: int) -> bool {
    0 <= i < entries.len() && entries[i].key@ == key
}

/// Whether no key occurs twice.
spec fn distinct(entries: Seq<Entry>) -> bool {
    forall|i: int, j: int| 0 <= i < j < entries.len() ==> entries[i].key@ != entries[j].key@
}

/// The map that the entries stand for.
spec fn contents(entries: Seq<Entry>) -> Map<Seq<char>, Seq<u8>> {
    Map::new(
        |key: Seq<char>| exists|i: int| holds_at(entries, key, i),
        |key: Seq<char>| buffer_bytes(entries[choose|i: int| holds_at(entries, key, i)].bytes),
    )
}

/// The entry for a key holds what the map has under that key.
proof fn lemma_contents_at(entries: Seq<Entry>, key: Seq<char>, i: int)
    requires
        distinct(entries),
        holds_at(entries, key, i),
    ensures
        contents(entries).contains_key(key),
        contents(entries)[key] == buffer_bytes(entries[i].bytes),
{
}

/// A change to the bytes of one entry changes the map under that entry's key
/// and nowhere else.
proof fn lemma_contents_updated(before: Seq<Entry>, after: Seq<Entry>, at: int, bytes: Seq<u8>)
    requires
        distinct(before),
        0 <= at < before.len(),
        after.len() == before.len(),
        forall|i: int| 0 <= i < before.len() ==> #[trigger] after[i].key@ == before[i].key@,
        forall|i: int|
            0 <= i < before.len() && i != at ==> buffer_bytes(#[trigger] after[i].bytes)
                == buffer_bytes(before[i].bytes),
        buffer_bytes(after[at].bytes) == bytes,
    ensures
        distinct(after),
        contents(after) == contents(before).insert(before[at].key@, bytes),
{
    let key = before[at].key@;
    assert forall|k: Seq<char>| #[trigger]
        contents(after).contains_key(k) == contents(before).insert(key, bytes).contains_key(
            k,
        ) by {
        if contents(after).contains_key(k) {
            let i = choose|i: int| holds_at(after, k, i);
            assert(holds_at(before, k, i));
        }
        if contents(before).contains_key(k) {
            let i = choose|i: int| holds_at(before, k, i);
            assert(holds_at(after, k, i));
        }
        if k == key {
            assert(holds_at(after, k, at));
        }
    }
}

/// A new entry for an absent key adds that key to the map.
proof fn lemma_contents_pushed(before: Seq<Entry>, entry: Entry)
    requires
        distinct(before),
        forall|i: int| !holds_at(before, entry.key@, i),
    ensures
        distinct(before.push(entry)),
        contents(before.push(entry)) == contents(before).insert(
            entry.key@,
            buffer_bytes(entry.bytes),
        ),
{
    let after = before.push(entry);
    let key = entry.key@;
    assert forall|i: int, j: int| 0 <= i < j < after.len() implies after[i].key@
        != after[j].key@ by {
        if j == before.len() {
            assert(!holds_at(before, key, i));
        }
    }
    assert(holds_at(after, key, before.len() as int));
    assert forall|k: Seq<char>| #[trigger]
        contents(after).contains_key(k) == contents(before).insert(
            key,
            buffer_bytes(entry.bytes),
        ).contains_key(k) by {
        if contents(after).contains_key(k) {
            let i = choose|i: int| holds_at(after, k, i);
            if i < before.len() {
                assert(holds_at(before, k, i));
            }
        }
        if contents(before).contains_key(k) {
            let i = choose|i: int| holds_at(before, k, i);
            assert(holds_at(after, k, i));
        }
    }
}

/// Without one of its entries the map is without that entry's key.
proof fn lemma_contents_removed(before: Seq<Entry>, at: int)
    requires
        distinct(before),
        0 <= at < before.len(),
    ensures
        distinct(before.remove(at)),
        contents(before.remove(at)) == contents(before).remove(before[at].key@),
{
    let after = before.remove(at);
    let key = before[at].key@;
    assert forall|k: Seq<char>| #[trigger]
        contents(after).contains_key(k) == contents(before).remove(key).contains_key(k) by {
        if contents(after).contains_key(k) {
            let i = choose|i: int| holds_at(after, k, i);
            let j = if i < at {
                i
            } else {
                i + 1
            };
            assert(holds_at(before, k, j));
        }
        if contents(before).contains_key(k) && k != key {
            let j = choose|j: int| holds_at(before, k, j);
            let i = if j < at {
                j
            } else {
                j - 1
            };
            assert(holds_at(after, k, i));
        }
    }
}

impl View for Store {
    type V = Map<Seq<char>, Seq<u8>>;

    closed spec fn view(&self) -> Map<Seq<char>, Seq<u8>> {
        contents(self.entries@)
    }
}

impl Default for Store {
    /// A store without keys.
    fn default() -> (store: Store)
        ensures
            store@ == Map::<Seq<char>, Seq<u8>>::empty(),
    {
        Store::new()
    }
}

impl Store {
    #[verifier::type_invariant]
    spec fn keys_are_distinct(self) -> bool {
        distinct(self.entries@)
    }

    /// Whether the value under `key`, if there is one, can take `extra` more
    /// bytes: a value is grown to at most [`growth_limit`] bytes, a quarter
    /// of what one allocation may span.
    pub open spec fn has_room(&self, key: Seq<char>, extra: nat) -> bool {
        self@.contains_key(key) ==> self@[key].len() + extra <= growth_limit()
    }

    /// A store without keys.
    pub fn new() -> (store: Store)
        ensures
            store@ == Map::<Seq<char>, Seq<u8>>::empty(),
    {
        Store { entries: Vec::new() }
    }

    /// A store without keys, with room set aside for `capacity` of them
    /// where that much room can be had, and with none set aside where it
    /// cannot.
    pub fn with_capacity(capacity: usize) -> (store: Store)
        ensures
            store@ == Map::<Seq<char>, Seq<u8>>::empty(),
    {
        let mut entries: Vec<Entry> = Vec::new();
        let _ = entries.try_reserve(capacity);
        Store { entries }
    }

    /// Where the entry for `key` is, if there is one.
    fn position(&self, key: &str) -> (found: Option<usize>)
        ensures
            match found {
                Some(i) => holds_at(self.entries@, key@, i as int),
                None => forall|i: int| !holds_at(self.entries@, key@, i),
            },
    {
        let mut i: usize = 0;
        while i < self.entries.len()
            invariant
                i <= self.entries.len(),
                forall|j: int| 0 <= j < i ==> !holds_at(self.entries@, key@, j),
            decreases self.entries.len() - i,
        {
            if same_text(self.entries[i].key.as_str(), key) {
                return Some(i);
            }
            i += 1;
        }
        None
    }

    /// Whether `key` is there.
    pub fn contains(&self, key: &str) -> (present: bool)
        ensures
            present == self@.contains_key(key@),
    {
        proof {
            use_type_invariant(self);
        }
        match self.position(key) {
            Some(i) => {
                proof {
                    lemma_contents_at(self.entries@, key@, i as int);
                }
                true
            },
            None => false,
        }
    }

    /// A copy of the bytes under `key` as they are now, or `None` where the
    /// key is absent.
    pub fn get(&self, key: &str) -> (snapshot: Option<Vec<u8>>)
        ensures
            match snapshot {
                Some(bytes) => self@.contains_key(key@) && bytes@ == self@[key@],
                None => !self@.contains_key(key@),
            },
    {
        proof {
            use_type_invariant(self);
        }
        match self.position(key) {
            Some(i) => {
                proof {
                    lemma_contents_at(self.entries@, key@, i as int);
                }
                let held: &[u8] = self.entries[i].bytes.as_ref();
                Some(slice_to_vec(held))
            },
            None => None,
        }
    }

    /// Creates `key` with an empty value, unless it is there already: then
    /// nothing changes.
    pub fn create_if_absent(&mut self, key: &str) -> (outcome: Creation)
        ensures
            final(self)@ == created(old(self)@, key@),
            outcome == (if old(self)@.contains_key(key@) {
                Creation::AlreadyExists
            } else {
                Creation::Created
            }),
    {
        proof {
            use_type_invariant(&*self);
        }
        match self.position(key) {
            Some(i) => {
                proof {
                    lemma_contents_at(self.entries@, key@, i as int);
                }
                Creation::AlreadyExists
            },
            None => {
                let entry = Entry { key: key.to_owned(), bytes: BytesMut::new() };
                proof {
                    lemma_contents_pushed(self.entries@, entry);
                }
                let mut entries: Vec<Entry> = Vec::new();
                std::mem::swap(&mut self.entries, &mut entries);
                entries.push(entry);
                self.entries = entries;
                Creation::Created
            },
        }
    }

    /// Appends `chunk` to the bytes of entry `i`.
    fn extend_at(&mut self, i: usize, chunk: &[u8])
        requires
            i < old(self).entries.len(),
            buffer_bytes(old(self).entries[i as int].bytes).len() + chunk@.len()
                <= growth_limit(),
        ensures
            final(self)@ == old(self)@.insert(
                old(self).entries[i as int].key@,
                buffer_bytes(old(self).entries[i as int].bytes) + chunk@,
            ),
    {
        proof {
            use_type_invariant(&*self);
        }
        let mut entries: Vec<Entry> = Vec::new();
        std::mem::swap(&mut self.entries, &mut entries);
        let ghost before = entries@;
        entries[i].bytes.extend_from_slice(chunk);
        proof {
            lemma_contents_updated(
                before,
                entries@,
                i as int,
                buffer_bytes(before[i as int].bytes) + chunk@,
            );
        }
        self.entries = entries;
    }

    /// Appends `chunk` to the value under `key`. Where the key is absent
    /// nothing changes, and no entry is made.
    pub fn append(&mut self, key: &str, chunk: &[u8]) -> (outcome: Appending)
        requires
            old(self).has_room(key@, chunk@.len()),
        ensures
            final(self)@ == appended(old(self)@, key@, chunk@),
            outcome == (if old(self)@.contains_key(key@) {
                Appending::Appended
            } else {
                Appending::Absent
            }),
    {
        proof {
            use_type_invariant(&*self);
        }
        match self.position(key) {
            Some(i) => {
                proof {
                    lemma_contents_at(self.entries@, key@, i as int);
                }
                self.extend_at(i, chunk);
                Appending::Appended
            },
            None => Appending::Absent,
        }
    }

    /// Appends as [`Store::append`] does where the value has room for the
    /// chunk; where it has none, changes nothing and returns `None`.
    pub fn try_append(&mut self, key: &str, chunk: &[u8]) -> (outcome: Option<Appending>)
        ensures
            outcome.is_some() == old(self).has_room(key@, chunk@.len()),
            match outcome {
                Some(done) => final(self)@ == appended(old(self)@, key@, chunk@) && done == (
                if old(self)@.contains_key(key@) {
                    Appending::Appended
                } else {
                    Appending::Absent
                }),
                None => final(self)@ == old(self)@,
            },
    {
        proof {
            use_type_invariant(&*self);
        }
        match self.position(key) {
            Some(i) => {
                proof {
                    lemma_contents_at(self.entries@, key@, i as int);
                }
                let held = self.entries[i].bytes.len();
                let limit: usize = isize::MAX as usize / 4;
                if held > limit || chunk.len() > limit - held {
                    None
                } else {
                    self.extend_at(i, chunk);
                    Some(Appending::Appended)
                }
            },
            None => Some(Appending::Absent),
        }
    }

    /// Removes `key` and its value. Where the key is absent nothing changes.
    pub fn delete(&mut self, key: &str) -> (outcome: Removal)
        ensures
            final(self)@ == deleted(old(self)@, key@),
            outcome == (if old(self)@.contains_key(key@) {
                Removal::Removed
            } else {
                Removal::Absent
            }),
    {
        proof {
            use_type_invariant(&*self);
        }
        match self.position(key) {
            Some(i) => {
                proof {
                    lemma_contents_at(self.entries@, key@, i as int);
                    lemma_contents_removed(self.entries@, i as int);
                }
                let mut entries: Vec<Entry> = Vec::new();
                std::mem::swap(&mut self.entries, &mut entries);
                let _ = entries.remove(i);
                self.entries = entries;
                Removal::Removed
            },
            None => Removal::Absent,
        }
    }

    /// The keys that begin with `prefix`, byte for byte: each of them once,
    /// and no other. An empty prefix finds every key.
    pub fn keys_with_prefix(&self, prefix: &str) -> (keys: Vec<String>)
        ensures
            lists_exactly(keys@.map_values(|key: String| key@), keys_matching(self@, prefix@)),
    {
        proof {
            use_type_invariant(self);
        }
        let mut keys: Vec<String> = Vec::new();
        let ghost mut at: Seq<int> = Seq::empty();
        let mut i: usize = 0;
        while i < self.entries.len()
            invariant
                i <= self.entries.len(),
                at.len() == keys.len(),
                forall|j: int|
                    0 <= j < at.len() ==> 0 <= #[trigger] at[j] < i && keys[j]@
                        == self.entries[at[j]].key@,
                forall|j: int, k: int| 0 <= j < k < at.len() ==> at[j] < at[k],
                forall|j: int| 0 <= j < at.len() ==> starts_with(#[trigger] keys[j]@, prefix@),
                forall|n: int|
                    0 <= n < i && starts_with(#[trigger] self.entries[n].key@, prefix@)
                        ==> at.contains(n),
            decreases self.entries.len() - i,
        {
            if text_starts_with(self.entries[i].key.as_str(), prefix) {
                let key = self.entries[i].key.clone();
                keys.push(key);
                proof {
                    let ghost earlier = at;
                    at = at.push(i as int);
                    assert forall|n: int|
                        0 <= n < i + 1 && starts_with(
                            #[trigger] self.entries[n].key@,
                            prefix@,
                        ) implies at.contains(n) by {
                        if n < i {
                            let j = choose|j: int| 0 <= j < earlier.len() && earlier[j] == n;
                            assert(at[j] == n);
                        } else {
                            assert(at[earlier.len() as int] == n);
                        }
                    }
                }
            }
            i += 1;
        }
        proof {
            let names = keys@.map_values(|key: String| key@);
            let wanted = keys_matching(self@, prefix@);
            assert forall|j: int, k: int| 0 <= j < names.len() && 0 <= k < names.len() && j
                != k implies names[j] != names[k] by {
                assert(at[j] != at[k]);
            }
            assert forall|j: int| 0 <= j < names.len() implies wanted.contains(
                #[trigger] names[j],
            ) by {
                lemma_contents_at(self.entries@, names[j], at[j]);
            }
            assert forall|key: Seq<char>| wanted.contains(key) implies names.contains(key) by {
                let n = choose|n: int| holds_at(self.entries@, key, n);
                let j = choose|j: int| 0 <= j < at.len() && at[j] == n;
                assert(names[j] == key);
            }
        }
        keys
    }
}

} // verus!
