//! Runs of operations on the store's map, in the order in which they take
//! effect, and what holds of a key's value at the end of a run.
//!
//! Each operation on a [`crate::store::Store`] takes effect at once and as a
//! whole, so whatever several transfers do to one store, in whatever order
//! their steps fall, is some run of operations.

use vstd::prelude::*;
use vstd::seq_lib::lemma_flatten_concat;
use crate::buffer::growth_limit;
use crate::ingest::{refusal, takes};
use crate::model::{appended, created, deleted, keys_matching, lookup};
use crate::replies::unchanged_reply;
use crate::response::Reply;
use crate::text::starts_with;

verus! {

/// One change to the map.
pub enum Operation {
    /// Create the key, if it is absent.
    Create { key: Seq<char> },
    /// Append the chunk to the key's value, if the key is there.
    Append { key: Seq<char>, chunk: Seq<u8> },
    /// Delete the key.
    Delete { key: Seq<char> },
}

impl Operation {
    /// The key that the operation is addressed to.
    pub open spec fn key(self) -> Seq<char> {
        match self {
            Operation::Create { key } => key,
            Operation::Append { key, .. } => key,
            Operation::Delete { key } => key,
        }
    }
}

/// The map after one operation.
pub open spec fn apply(contents: Map<Seq<char>, Seq<u8>>, op: Operation) -> Map<
    Seq<char>,
    Seq<u8>,
> {
    match op {
        Operation::Create { key } => created(contents, key),
        Operation::Append { key, chunk } => appended(contents, key, chunk),
        Operation::Delete { key } => deleted(contents, key),
    }
}

/// The map after the operations of `ops`, first to last.
pub open spec fn run(contents: Map<Seq<char>, Seq<u8>>, ops: Seq<Operation>) -> Map<
    Seq<char>,
    Seq<u8>,
>
    decreases ops.len(),
{
    if ops.len() == 0 {
        contents
    } else {
        apply(run(contents, ops.drop_last()), ops.last())
    }
}

/// The operations of `ops` that are addressed to `key`, in their order.
pub open spec fn addressed_to(ops: Seq<Operation>, key: Seq<char>) -> Seq<Operation> {
    ops.filter(|op: Operation| op.key() == key)
}

/// The operations of one upload: the key is created, then each chunk is
/// appended in turn.
pub open spec fn transfer(key: Seq<char>, chunks: Seq<Seq<u8>>) -> Seq<Operation> {
    seq![Operation::Create { key }] + chunks.map_values(
        |chunk: Seq<u8>| Operation::Append { key, chunk },
    )
}

/// A run that ends with `op` is the run before it, then `op`.
pub proof fn lemma_run_push(contents: Map<Seq<char>, Seq<u8>>, ops: Seq<Operation>, op: Operation)
    ensures
        run(contents, ops.push(op)) == apply(run(contents, ops), op),
{
    assert(ops.push(op).drop_last() =~= ops);
}

/// A key that is absent at the start and that no operation creates is absent
/// at the end.
pub proof fn lemma_uncreated_stays_absent(
    contents: Map<Seq<char>, Seq<u8>>,
    ops: Seq<Operation>,
    key: Seq<char>,
)
    requires
        !contents.contains_key(key),
        forall|i: int| 0 <= i < ops.len() ==> ops[i] != (Operation::Create { key }),
    ensures
        lookup(run(contents, ops), key) is None,
    decreases ops.len(),
{
    if ops.len() > 0 {
        lemma_uncreated_stays_absent(contents, ops.drop_last(), key);
    }
}

/// In a store that began empty, a key that was never created is not found.
pub proof fn lemma_never_created_not_found(ops: Seq<Operation>, key: Seq<char>)
    requires
        forall|i: int| 0 <= i < ops.len() ==> ops[i] != (Operation::Create { key }),
    ensures
        lookup(run(Map::<Seq<char>, Seq<u8>>::empty(), ops), key) is None,
{
    lemma_uncreated_stays_absent(Map::<Seq<char>, Seq<u8>>::empty(), ops, key);
}

/// An upload to a fresh key, run without anything in between, leaves under
/// the key exactly the bytes that were sent, and changes no other key.
pub proof fn lemma_transfer_stores_body(
    contents: Map<Seq<char>, Seq<u8>>,
    key: Seq<char>,
    chunks: Seq<Seq<u8>>,
)
    requires
        !contents.contains_key(key),
    ensures
        run(contents, transfer(key, chunks)) == contents.insert(key, chunks.flatten()),
        lookup(run(contents, transfer(key, chunks)), key) == Some(chunks.flatten()),
    decreases chunks.len(),
{
    if chunks.len() == 0 {
        lemma_run_push(contents, Seq::<Operation>::empty(), Operation::Create { key });
    } else {
        let init = chunks.drop_last();
        let last = chunks.last();
        lemma_transfer_stores_body(contents, key, init);
        assert(chunks =~= init.push(last));
        assert(transfer(key, chunks) =~= transfer(key, init).push(
            Operation::Append { key, chunk: last },
        ));
        lemma_run_push(contents, transfer(key, init), Operation::Append { key, chunk: last });
        init.lemma_flatten_push(last);
    }
}

/// What a run leaves under a key depends only on the operations addressed to
/// that key, in their order: operations on other keys, wherever they fall in
/// between, make no difference to it.
pub proof fn lemma_other_keys_do_not_interfere(
    contents: Map<Seq<char>, Seq<u8>>,
    ops: Seq<Operation>,
    key: Seq<char>,
)
    ensures
        lookup(run(contents, ops), key) == lookup(run(contents, addressed_to(ops, key)), key),
    decreases ops.len(),
{
    reveal(Seq::filter);
    if ops.len() > 0 {
        let init = ops.drop_last();
        let last = ops.last();
        lemma_other_keys_do_not_interfere(contents, init, key);
        if last.key() == key {
            lemma_run_push(contents, addressed_to(init, key), last);
        }
    }
}

/// An upload to a fresh key stores exactly the bytes that were sent, whatever
/// is done to other keys while it goes on and however the steps interleave.
pub proof fn lemma_interleaved_transfer_stores_body(
    contents: Map<Seq<char>, Seq<u8>>,
    ops: Seq<Operation>,
    key: Seq<char>,
    chunks: Seq<Seq<u8>>,
)
    requires
        !contents.contains_key(key),
        addressed_to(ops, key) == transfer(key, chunks),
    ensures
        lookup(run(contents, ops), key) == Some(chunks.flatten()),
{
    lemma_other_keys_do_not_interfere(contents, ops, key);
    lemma_transfer_stores_body(contents, key, chunks);
}

/// Two uploads to two fresh keys, interleaved in any way, each store their
/// own bytes.
pub proof fn lemma_two_transfers_are_independent(
    contents: Map<Seq<char>, Seq<u8>>,
    ops: Seq<Operation>,
    first: Seq<char>,
    first_chunks: Seq<Seq<u8>>,
    second: Seq<char>,
    second_chunks: Seq<Seq<u8>>,
)
    requires
        first != second,
        !contents.contains_key(first),
        !contents.contains_key(second),
        addressed_to(ops, first) == transfer(first, first_chunks),
        addressed_to(ops, second) == transfer(second, second_chunks),
    ensures
        lookup(run(contents, ops), first) == Some(first_chunks.flatten()),
        lookup(run(contents, ops), second) == Some(second_chunks.flatten()),
{
    lemma_interleaved_transfer_stores_body(contents, ops, first, first_chunks);
    lemma_interleaved_transfer_stores_body(contents, ops, second, second_chunks);
}

/// While a key is not deleted its value only grows: what it held at the
/// start of a run is the start of what it holds at the end.
pub proof fn lemma_values_only_grow(
    contents: Map<Seq<char>, Seq<u8>>,
    ops: Seq<Operation>,
    key: Seq<char>,
)
    requires
        contents.contains_key(key),
        forall|i: int| 0 <= i < ops.len() ==> ops[i] != (Operation::Delete { key }),
    ensures
        run(contents, ops).contains_key(key),
        contents[key].is_prefix_of(run(contents, ops)[key]),
    decreases ops.len(),
{
    if ops.len() > 0 {
        lemma_values_only_grow(contents, ops.drop_last(), key);
    }
}

/// The operations that create the keys of `keys`, in their order.
pub open spec fn creations(keys: Seq<Seq<char>>) -> Seq<Operation> {
    keys.map_values(|key: Seq<char>| Operation::Create { key })
}

/// A store in which keys were created holds each of them, in whatever order
/// they came and however often each was named, and no other.
pub proof fn lemma_created_keys(keys: Seq<Seq<char>>)
    ensures
        run(Map::<Seq<char>, Seq<u8>>::empty(), creations(keys)).dom() == keys.to_set(),
    decreases keys.len(),
{
    if keys.len() > 0 {
        let init = keys.drop_last();
        lemma_created_keys(init);
        assert(creations(keys).drop_last() =~= creations(init));
        assert forall|key: Seq<char>| keys.to_set().contains(key) == (init.to_set().contains(key)
            || key == keys.last()) by {
            if keys.contains(key) {
                let i = choose|i: int| 0 <= i < keys.len() && keys[i] == key;
                if i < init.len() {
                    assert(init[i] == key);
                }
            }
        }
    }
}

/// A listing finds exactly the created keys that begin with the prefix: the
/// order in which the keys were created plays no part.
pub proof fn lemma_listing_ignores_creation_order(keys: Seq<Seq<char>>, prefix: Seq<char>)
    ensures
        keys_matching(run(Map::<Seq<char>, Seq<u8>>::empty(), creations(keys)), prefix)
            == Set::new(|key: Seq<char>| keys.contains(key) && starts_with(key, prefix)),
{
    lemma_created_keys(keys);
}

/// The answer with which a step ends an upload before the end of its body,
/// or `None` where the upload goes on: a create is refused where the key
/// exists, a chunk where the key is gone or its value has no room.
pub open spec fn early_answer(contents: Map<Seq<char>, Seq<u8>>, op: Operation) -> Option<Reply> {
    match op {
        Operation::Create { key } => if contents.contains_key(key) {
            Some(unchanged_reply())
        } else {
            None
        },
        Operation::Append { key, chunk } => if takes(contents, key, chunk) {
            None
        } else {
            Some(refusal(contents, key))
        },
        Operation::Delete { .. } => None,
    }
}

/// The operations addressed to a key, taken from two runs one after the
/// other, are those of the first run, then those of the second.
pub proof fn lemma_addressed_to_concat(a: Seq<Operation>, b: Seq<Operation>, key: Seq<char>)
    ensures
        addressed_to(a + b, key) == addressed_to(a, key) + addressed_to(b, key),
    decreases b.len(),
{
    reveal(Seq::filter);
    if b.len() > 0 {
        lemma_addressed_to_concat(a, b.drop_last(), key);
    }
}

/// The first steps of an upload are an upload of the first chunks.
pub proof fn lemma_transfer_take(key: Seq<char>, chunks: Seq<Seq<u8>>, n: int)
    requires
        0 <= n <= chunks.len(),
    ensures
        transfer(key, chunks).take(n + 1) == transfer(key, chunks.take(n)),
        transfer(key, chunks).len() == chunks.len() + 1,
        n < chunks.len() ==> transfer(key, chunks)[n + 1] == (Operation::Append {
            key,
            chunk: chunks[n],
        }),
        chunks.take(n).flatten().len() <= chunks.flatten().len(),
        n < chunks.len() ==> chunks.take(n + 1).flatten() == chunks.take(n).flatten() + chunks[n],
{
    assert(chunks =~= chunks.take(n) + chunks.skip(n));
    lemma_flatten_concat(chunks.take(n), chunks.skip(n));
    if n < chunks.len() {
        assert(chunks.take(n + 1) =~= chunks.take(n).push(chunks[n]));
        chunks.take(n).lemma_flatten_push(chunks[n]);
    }
}

/// Every step of an upload to a fresh key gets on, whatever is done to other
/// keys in between and however the steps interleave: its create is not
/// refused, and each of its chunks finds the key there with room for it, as
/// long as the body is no longer than a value may grow. The upload therefore
/// ends at the end of its body, with the answer that the data were taken.
pub proof fn lemma_interleaved_transfer_is_accepted(
    contents: Map<Seq<char>, Seq<u8>>,
    ops: Seq<Operation>,
    key: Seq<char>,
    chunks: Seq<Seq<u8>>,
    i: int,
)
    requires
        !contents.contains_key(key),
        addressed_to(ops, key) == transfer(key, chunks),
        chunks.flatten().len() <= growth_limit(),
        0 <= i < ops.len(),
        ops[i].key() == key,
    ensures
        early_answer(run(contents, ops.take(i)), ops[i]) is None,
{
    reveal(Seq::filter);
    let before = ops.take(i);
    let own = addressed_to(before, key);
    let n = own.len() as int;
    let all = transfer(key, chunks);
    // The step is the next of the upload's own steps.
    assert(ops =~= before.push(ops[i]) + ops.skip(i + 1));
    lemma_addressed_to_concat(before.push(ops[i]), ops.skip(i + 1), key);
    assert(before.push(ops[i]).drop_last() =~= before);
    assert(own =~= all.take(n));
    lemma_other_keys_do_not_interfere(contents, before, key);
    if n > 0 {
        // What went before of the upload is an upload of the first chunks,
        // and the step is the chunk that follows them.
        lemma_transfer_take(key, chunks, n - 1);
        lemma_transfer_stores_body(contents, key, chunks.take(n - 1));
        lemma_transfer_take(key, chunks, n);
    }
}

/// Two uploads to two fresh keys, interleaved in any way, are both taken in
/// whole: no step of either is refused on account of the other.
pub proof fn lemma_two_transfers_are_accepted(
    contents: Map<Seq<char>, Seq<u8>>,
    ops: Seq<Operation>,
    first: Seq<char>,
    first_chunks: Seq<Seq<u8>>,
    second: Seq<char>,
    second_chunks: Seq<Seq<u8>>,
)
    requires
        first != second,
        !contents.contains_key(first),
        !contents.contains_key(second),
        addressed_to(ops, first) == transfer(first, first_chunks),
        addressed_to(ops, second) == transfer(second, second_chunks),
        first_chunks.flatten().len() <= growth_limit(),
        second_chunks.flatten().len() <= growth_limit(),
    ensures
        forall|i: int|
            0 <= i < ops.len() && (#[trigger] ops[i].key() == first || ops[i].key() == second)
                ==> early_answer(run(contents, ops.take(i)), ops[i]) is None,
        lookup(run(contents, ops), first) == Some(first_chunks.flatten()),
        lookup(run(contents, ops), second) == Some(second_chunks.flatten()),
{
    assert forall|i: int|
        0 <= i < ops.len() && (#[trigger] ops[i].key() == first || ops[i].key()
            == second) implies early_answer(run(contents, ops.take(i)), ops[i]) is None by {
        if ops[i].key() == first {
            lemma_interleaved_transfer_is_accepted(contents, ops, first, first_chunks, i);
        } else {
            lemma_interleaved_transfer_is_accepted(contents, ops, second, second_chunks, i);
        }
    }
    lemma_two_transfers_are_independent(
        contents,
        ops,
        first,
        first_chunks,
        second,
        second_chunks,
    );
}

} // verus!
