//! Sending a stored value out, chunk by chunk.
//!
//! An [`Egress`] owns a copy of the value as it was when the request began.
//! It hands the copy out front to back, each byte once, and then reports that
//! nothing is left: a transfer is finite and is never repeated. What is
//! appended to the stored value in the meantime is not seen.

use vstd::prelude::*;
use vstd::slice::{slice_subrange, slice_to_vec};

verus! {

/// The length of the next chunk when `remaining` bytes are left and a chunk
/// may hold `limit` bytes. A limit of zero stands for no limit: the rest goes
/// out as one chunk.
pub open spec fn chunk_length(remaining: nat, limit: nat) -> nat {
    if limit == 0 || remaining <= limit {
        remaining
    } else {
        limit
    }
}

/// The chunks in which `bytes` goes out from position `from` on.
pub open spec fn chunks_from(bytes: Seq<u8>, from: nat, limit: nat) -> Seq<Seq<u8>>
    decreases bytes.len() - from,
{
    if from >= bytes.len() {
        Seq::empty()
    } else {
        let n = chunk_length((bytes.len() - from) as nat, limit);
        seq![bytes.subrange(from as int, (from + n) as int)] + chunks_from(bytes, from + n, limit)
    }
}

/// The chunks of a transfer, joined, are exactly the bytes that were left to
/// send; none of them is empty, and none is longer than the limit allows.
pub proof fn lemma_chunks_cover_the_rest(bytes: Seq<u8>, from: nat, limit: nat)
    requires
        from <= bytes.len(),
    ensures
        chunks_from(bytes, from, limit).flatten() == bytes.skip(from as int),
        chunks_from(bytes, from, limit).len() <= bytes.len() - from,
        forall|i: int|
            0 <= i < chunks_from(bytes, from, limit).len() ==> {
                let chunk = #[trigger] chunks_from(bytes, from, limit)[i];
                chunk.len() > 0 && (limit > 0 ==> chunk.len() <= limit)
            },
    decreases bytes.len() - from,
{
    if from < bytes.len() {
        let n = chunk_length((bytes.len() - from) as nat, limit);
        let tail = chunks_from(bytes, from + n, limit);
        lemma_chunks_cover_the_rest(bytes, from + n, limit);
        let all = chunks_from(bytes, from, limit);
        assert(all.drop_first() =~= tail);
        assert forall|i: int| 0 <= i < all.len() implies {
            let chunk = #[trigger] all[i];
            chunk.len() > 0 && (limit > 0 ==> chunk.len() <= limit)
        } by {}
    }
}

/// A value on its way out: the copy taken when the request began, and how
/// much of it has been handed out.
#[derive(Debug)]
pub struct Egress {
    bytes: Vec<u8>,
    cursor: usize,
}

impl Egress {
    #[verifier::type_invariant]
    spec fn cursor_within(self) -> bool {
        self.cursor <= self.bytes.len()
    }

    /// The bytes of the copy.
    pub closed spec fn snapshot(&self) -> Seq<u8> {
        self.bytes@
    }

    /// How many bytes of the copy have been handed out.
    pub closed spec fn sent(&self) -> nat {
        self.cursor as nat
    }

    /// A transfer of `snapshot` of which nothing has gone out yet.
    pub fn new(snapshot: Vec<u8>) -> (egress: Egress)
        ensures
            egress.snapshot() == snapshot@,
            egress.sent() == 0,
    {
        Egress { bytes: snapshot, cursor: 0 }
    }

    /// The length of the copy.
    pub fn len(&self) -> (n: usize)
        ensures
            n == self.snapshot().len(),
    {
        self.bytes.len()
    }

    /// Whether the whole copy has been handed out.
    pub fn is_finished(&self) -> (finished: bool)
        ensures
            self.sent() <= self.snapshot().len(),
            finished == (self.sent() == self.snapshot().len()),
    {
        proof {
            use_type_invariant(self);
        }
        self.cursor == self.bytes.len()
    }

    /// Hands out the next chunk: the bytes that follow those already sent, at
    /// most `limit` of them where `limit` is not zero, all of them where it
    /// is. Returns `None` once the whole copy has gone out, and from then on.
    pub fn next_chunk(&mut self, limit: usize) -> (chunk: Option<Vec<u8>>)
        ensures
            final(self).snapshot() == old(self).snapshot(),
            old(self).sent() <= final(self).sent() <= old(self).snapshot().len(),
            match chunk {
                Some(bytes) => {
                    &&& old(self).sent() < old(self).snapshot().len()
                    &&& bytes@.len() == chunk_length(
                        (old(self).snapshot().len() - old(self).sent()) as nat,
                        limit as nat,
                    )
                    &&& bytes@ == old(self).snapshot().subrange(
                        old(self).sent() as int,
                        final(self).sent() as int,
                    )
                    &&& final(self).sent() == old(self).sent() + bytes@.len()
                },
                None => {
                    &&& old(self).sent() == old(self).snapshot().len()
                    &&& final(self).sent() == old(self).sent()
                },
            },
    {
        proof {
            use_type_invariant(&*self);
        }
        let remaining = self.bytes.len() - self.cursor;
        if remaining == 0 {
            return None;
        }
        let n = if limit == 0 || remaining <= limit {
            remaining
        } else {
            limit
        };
        let end = self.cursor + n;
        let chunk = slice_to_vec(slice_subrange(self.bytes.as_slice(), self.cursor, end));
        self.cursor = end;
        Some(chunk)
    }

    /// Hands out all that is left, in chunks as [`Egress::next_chunk`] cuts
    /// them. Joined, they are exactly the bytes not sent before.
    pub fn drain(&mut self, limit: usize) -> (chunks: Vec<Vec<u8>>)
        ensures
            final(self).snapshot() == old(self).snapshot(),
            final(self).sent() == old(self).snapshot().len(),
            chunks@.map_values(|chunk: Vec<u8>| chunk@) == chunks_from(
                old(self).snapshot(),
                old(self).sent(),
                limit as nat,
            ),
            chunks@.map_values(|chunk: Vec<u8>| chunk@).flatten() == old(self).snapshot().skip(
                old(self).sent() as int,
            ),
    {
        proof {
            use_type_invariant(&*self);
        }
        let ghost bytes = self.snapshot();
        let ghost start = self.sent();
        let mut chunks: Vec<Vec<u8>> = Vec::new();
        loop
            invariant
                self.snapshot() == bytes,
                start <= self.sent() <= bytes.len(),
                chunks@.map_values(|chunk: Vec<u8>| chunk@) + chunks_from(
                    bytes,
                    self.sent(),
                    limit as nat,
                ) == chunks_from(bytes, start, limit as nat),
            ensures
                self.snapshot() == bytes,
                self.sent() == bytes.len(),
                chunks@.map_values(|chunk: Vec<u8>| chunk@) == chunks_from(
                    bytes,
                    start,
                    limit as nat,
                ),
            decreases bytes.len() - self.sent(),
        {
            match self.next_chunk(limit) {
                Some(chunk) => {
                    chunks.push(chunk);
                },
                None => {
                    break ;
                },
            }
        }
        proof {
            lemma_chunks_cover_the_rest(bytes, start, limit as nat);
        }
        chunks
    }
}

} // verus!
