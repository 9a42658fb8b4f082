//! Taking an uploaded value in, chunk by chunk.
//!
//! An upload is a run of short steps on the store: one that creates the key,
//! then one for each chunk of the body as it arrives. An [`Ingest`] holds no
//! part of the store between the steps, only the key; whoever waits for the
//! next chunk does so with the store free for every other request. A step
//! that ends the upload takes the `Ingest` with it, so no later step can
//! touch the store on its behalf. The end of the body and its failure need
//! no store at all.

use vstd::prelude::*;
use crate::buffer::growth_limit;
use crate::model::{appended, created};
use crate::replies::{
    accepted, accepted_reply, broken, broken_reply, conflict, conflict_reply, full, full_reply,
};
use crate::response::{Reply, Response};
use crate::store::{Appending, Creation, Store};

verus! {

/// An upload that has created its key and waits for its body.
#[derive(Debug)]
pub struct Ingest {
    key: String,
}

/// How an upload stands after a step.
#[derive(Debug)]
pub enum Progress {
    /// The chunk was stored; wait for the next event.
    Continue(Ingest),
    /// The upload is over, and this is its answer.
    Finished(Response),
}

/// Whether a chunk is stored: the key is still there, and its value has room
/// for the chunk.
pub open spec fn takes(contents: Map<Seq<char>, Seq<u8>>, key: Seq<char>, chunk: Seq<u8>) -> bool {
    contents.contains_key(key) && contents[key].len() + chunk.len() <= growth_limit()
}

/// The map after a chunk came in for `key`.
pub open spec fn after_chunk(
    contents: Map<Seq<char>, Seq<u8>>,
    key: Seq<char>,
    chunk: Seq<u8>,
) -> Map<Seq<char>, Seq<u8>> {
    if takes(contents, key, chunk) {
        appended(contents, key, chunk)
    } else {
        contents
    }
}

/// The answer that ends an upload whose chunk is not stored.
pub open spec fn refusal(contents: Map<Seq<char>, Seq<u8>>, key: Seq<char>) -> Reply {
    if contents.contains_key(key) {
        full_reply(key)
    } else {
        conflict_reply(key)
    }
}

impl Ingest {
    /// The key that the upload writes to.
    pub closed spec fn key(&self) -> Seq<char> {
        self.key@
    }

    /// Starts an upload to `key`: creates the key and returns the upload, or
    /// returns `None` and changes nothing where the key exists.
    pub fn begin(store: &mut Store, key: &str) -> (ingest: Option<Ingest>)
        ensures
            final(store)@ == created(old(store)@, key@),
            match ingest {
                Some(started) => !old(store)@.contains_key(key@) && started.key() == key@,
                None => old(store)@.contains_key(key@),
            },
    {
        match store.create_if_absent(key) {
            Creation::Created => Some(Ingest { key: key.to_owned() }),
            Creation::AlreadyExists => None,
        }
    }

    /// The key that the upload writes to.
    pub fn target(&self) -> (key: &str)
        ensures
            key@ == self.key(),
    {
        self.key.as_str()
    }

    /// Takes the next chunk of the body.
    ///
    /// The chunk is appended to the key's value and the upload goes on. Where
    /// the key is gone, deleted by another request, or its value has no room
    /// for the chunk, the store stays as it is and the upload ends with the
    /// answer that says so.
    pub fn take(self, store: &mut Store, chunk: &[u8]) -> (progress: Progress)
        ensures
            final(store)@ == after_chunk(old(store)@, self.key(), chunk@),
            match progress {
                Progress::Continue(next) => {
                    &&& takes(old(store)@, self.key(), chunk@)
                    &&& next.key() == self.key()
                },
                Progress::Finished(response) => {
                    &&& !takes(old(store)@, self.key(), chunk@)
                    &&& response@ == refusal(old(store)@, self.key())
                },
            },
    {
        match store.try_append(self.key.as_str(), chunk) {
            Some(Appending::Appended) => Progress::Continue(self),
            Some(Appending::Absent) => Progress::Finished(conflict(self.key.as_str())),
            None => Progress::Finished(full(self.key.as_str())),
        }
    }

    /// Ends the upload at the end of its body: all of it was stored.
    pub fn finish(self) -> (response: Response)
        ensures
            response@ == accepted_reply(),
    {
        accepted()
    }

    /// Ends the upload because its body cannot be read on: the sender is gone
    /// or the transport failed. What was stored so far stays.
    pub fn abandon(self) -> (response: Response)
        ensures
            response@ == broken_reply(self.key()),
    {
        broken(self.key.as_str())
    }
}

} // verus!
