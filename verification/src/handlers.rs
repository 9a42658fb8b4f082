//! The four requests, each from the store and the request's key to the
//! store's new contents and the answer.
//!
//! A handler borrows the store for one in-memory step. Where the store is
//! shared and cannot be reached, the request is answered with
//! [`crate::replies::unavailable`] and the store is left for the next one.

use vstd::prelude::*;
use vstd::seq_lib::lemma_flatten_concat;
use crate::buffer::growth_limit;
use crate::egress::Egress;
use crate::ingest::{Ingest, Progress};
use crate::model::{created, deleted, keys_matching, lists_exactly};
use crate::replies::{
    accepted_reply, full_reply, listing, listing_reply, not_removed, not_removed_reply,
    not_found, not_found_reply, removed, removed_reply, unchanged, unchanged_reply,
};
use crate::response::{Response, Status};
use crate::store::{Removal, Store};

verus! {

/// What a fetch found.
#[derive(Debug)]
pub enum Fetched {
    /// The key is there: the status of the answer, and the value as it is
    /// now, ready to be sent as the answer's body.
    Found { status: Status, egress: Egress },
    /// The key is absent.
    Missing(Response),
}

/// How an upload began.
#[derive(Debug)]
pub enum Creating {
    /// The key was created: the body may now be taken in.
    Accepted(Ingest),
    /// The key exists: nothing is read and nothing changes.
    Refused(Response),
}

/// Fetches `key`: a copy of its value as it is now, to be sent once with a
/// status of success, or the answer that the key was not found.
pub fn fetch(store: &Store, key: &str) -> (fetched: Fetched)
    ensures
        match fetched {
            Fetched::Found { status, egress } => {
                &&& store@.contains_key(key@)
                &&& status == Status::Success
                &&& egress.snapshot() == store@[key@]
                &&& egress.sent() == 0
            },
            Fetched::Missing(response) => {
                &&& !store@.contains_key(key@)
                &&& response@ == not_found_reply(key@)
            },
        },
{
    match store.get(key) {
        Some(snapshot) => Fetched::Found { status: Status::Success, egress: Egress::new(snapshot) },
        None => Fetched::Missing(not_found(key)),
    }
}

/// Deletes `key` and confirms it, or answers that the key was not found and
/// changes nothing.
pub fn delete(store: &mut Store, key: &str) -> (response: Response)
    ensures
        final(store)@ == deleted(old(store)@, key@),
        response@ == (if old(store)@.contains_key(key@) {
            removed_reply(key@)
        } else {
            not_removed_reply(key@)
        }),
{
    match store.delete(key) {
        Removal::Removed => removed(key),
        Removal::Absent => not_removed(key),
    }
}

/// Begins an upload to `key`. A new key is created empty and the upload is
/// handed back; an upload to a key that exists is refused, and the stored
/// value stays as it is whatever the body holds.
pub fn create(store: &mut Store, key: &str) -> (creating: Creating)
    ensures
        final(store)@ == created(old(store)@, key@),
        match creating {
            Creating::Accepted(ingest) => {
                &&& !old(store)@.contains_key(key@)
                &&& ingest.key() == key@
            },
            Creating::Refused(response) => {
                &&& old(store)@.contains_key(key@)
                &&& final(store)@ == old(store)@
                &&& response@ == unchanged_reply()
            },
        },
{
    match Ingest::begin(store, key) {
        Some(ingest) => Creating::Accepted(ingest),
        None => Creating::Refused(unchanged()),
    }
}

/// Lists the keys that begin with `prefix`: a line that names the prefix,
/// then each matching key once, on a line of its own, in no promised order.
pub fn list(store: &Store, prefix: &str) -> (response: Response)
    ensures
        exists|keys: Seq<Seq<char>>|
            lists_exactly(keys, keys_matching(store@, prefix@)) && response@ == listing_reply(
                prefix@,
                keys,
            ),
{
    let keys = store.keys_with_prefix(prefix);
    listing(prefix, &keys)
}

/// The bytes of the first `n` chunks, joined.
pub open spec fn joined(chunks: Seq<Vec<u8>>, n: int) -> Seq<u8> {
    chunks.take(n).map_values(|chunk: Vec<u8>| chunk@).flatten()
}

proof fn lemma_joined_next(chunks: Seq<Vec<u8>>, n: int)
    requires
        0 <= n < chunks.len(),
    ensures
        joined(chunks, n + 1) == joined(chunks, n) + chunks[n]@,
{
    let upto = chunks.take(n).map_values(|chunk: Vec<u8>| chunk@);
    assert(chunks.take(n + 1).map_values(|chunk: Vec<u8>| chunk@) =~= upto.push(chunks[n]@));
    upto.lemma_flatten_push(chunks[n]@);
}

proof fn lemma_joined_grows(chunks: Seq<Vec<u8>>, n: int)
    requires
        0 <= n <= chunks.len(),
    ensures
        joined(chunks, n).len() <= joined(chunks, chunks.len() as int).len(),
{
    let first = chunks.take(n).map_values(|chunk: Vec<u8>| chunk@);
    let rest = chunks.skip(n).map_values(|chunk: Vec<u8>| chunk@);
    assert(chunks.take(chunks.len() as int) =~= chunks);
    assert(chunks.map_values(|chunk: Vec<u8>| chunk@) =~= first + rest);
    lemma_flatten_concat(first, rest);
}

/// Uploads a body that is at hand in full, chunk by chunk, as a streamed
/// upload would arrive with nothing else done to the key in between.
///
/// An upload to a key that exists is refused and changes nothing. One to a
/// new key leaves under it exactly the bytes of the chunks, joined in their
/// order. Where the bytes are more than one value can hold, the upload ends
/// at the first chunk that does not fit, with the chunks before it stored.
pub fn put(store: &mut Store, key: &str, chunks: &Vec<Vec<u8>>) -> (response: Response)
    ensures
        old(store)@.contains_key(key@) ==> {
            &&& final(store)@ == old(store)@
            &&& response@ == unchanged_reply()
        },
        !old(store)@.contains_key(key@) && joined(chunks@, chunks@.len() as int).len()
            <= growth_limit() ==> {
            &&& final(store)@ == old(store)@.insert(key@, joined(chunks@, chunks@.len() as int))
            &&& response@ == accepted_reply()
        },
        !old(store)@.contains_key(key@) && joined(chunks@, chunks@.len() as int).len()
            > growth_limit() ==> {
            &&& response@ == full_reply(key@)
            &&& exists|n: int|
                {
                    &&& 0 <= n < chunks@.len()
                    &&& joined(chunks@, n).len() <= growth_limit() < #[trigger] joined(
                        chunks@,
                        n + 1,
                    ).len()
                    &&& final(store)@ == old(store)@.insert(key@, joined(chunks@, n))
                }
        },
{
    let ghost before = store@;
    match create(store, key) {
        Creating::Refused(response) => response,
        Creating::Accepted(started) => {
            let mut ingest = started;
            let mut i: usize = 0;
            while i < chunks.len()
                invariant
                    i <= chunks.len(),
                    before == old(store)@,
                    !before.contains_key(key@),
                    ingest.key() == key@,
                    joined(chunks@, i as int).len() <= growth_limit(),
                    store@ == before.insert(key@, joined(chunks@, i as int)),
                decreases chunks.len() - i,
            {
                proof {
                    lemma_joined_next(chunks@, i as int);
                }
                match ingest.take(store, chunks[i].as_slice()) {
                    Progress::Continue(next) => {
                        ingest = next;
                    },
                    Progress::Finished(response) => {
                        proof {
                            lemma_joined_grows(chunks@, i + 1);
                        }
                        return response;
                    },
                }
                i += 1;
            }
            ingest.finish()
        },
    }
}

} // verus!
