//! The answers that the handlers give, each as a statement of its text and
//! as the function that builds it.

use vstd::prelude::*;
use vstd::string::StringExecFns;
use crate::response::{Reply, Response, Status};

verus! {

/// The answer to a fetch of an absent key.
pub open spec fn not_found_reply(key: Seq<char>) -> Reply {
    Reply { status: Status::NotFound, text: "Key "@ + key + " was not found."@ }
}

/// The answer to a fetch of an absent key.
pub fn not_found(key: &str) -> (response: Response)
    ensures
        response@ == not_found_reply(key@),
{
    Response::naming(Status::NotFound, "Key ", key, " was not found.")
}

/// The answer to a delete of an absent key.
pub open spec fn not_removed_reply(key: Seq<char>) -> Reply {
    Reply { status: Status::NotFound, text: "Key "@ + key + " was not found in our database."@ }
}

/// The answer to a delete of an absent key.
pub fn not_removed(key: &str) -> (response: Response)
    ensures
        response@ == not_removed_reply(key@),
{
    Response::naming(Status::NotFound, "Key ", key, " was not found in our database.")
}

/// The answer to a delete that removed the key.
pub open spec fn removed_reply(key: Seq<char>) -> Reply {
    Reply { status: Status::Success, text: "Key "@ + key + " succesfully deleted."@ }
}

/// The answer to a delete that removed the key.
pub fn removed(key: &str) -> (response: Response)
    ensures
        response@ == removed_reply(key@),
{
    Response::naming(Status::Success, "Key ", key, " succesfully deleted.")
}

/// The answer to an upload that was taken in whole.
pub open spec fn accepted_reply() -> Reply {
    Reply { status: Status::Success, text: "Data were succesfully put."@ }
}

/// The answer to an upload that was taken in whole.
pub fn accepted() -> (response: Response)
    ensures
        response@ == accepted_reply(),
{
    Response::plain(Status::Success, "Data were succesfully put.")
}

/// The answer to an upload to a key that exists: it is refused, not an error.
pub open spec fn unchanged_reply() -> Reply {
    Reply { status: Status::Success, text: "No data were changed"@ }
}

/// The answer to an upload to a key that exists: it is refused, not an error.
pub fn unchanged() -> (response: Response)
    ensures
        response@ == unchanged_reply(),
{
    Response::plain(Status::Success, "No data were changed")
}

/// The answer to an upload whose key was deleted while data were coming in.
pub open spec fn conflict_reply(key: Seq<char>) -> Reply {
    Reply {
        status: Status::Conflict,
        text: "Key "@ + key + " was deleted while its data were put."@,
    }
}

/// The answer to an upload whose key was deleted while data were coming in.
pub fn conflict(key: &str) -> (response: Response)
    ensures
        response@ == conflict_reply(key@),
{
    Response::naming(Status::Conflict, "Key ", key, " was deleted while its data were put.")
}

/// The answer to an upload whose body could not be read to its end.
pub open spec fn broken_reply(key: Seq<char>) -> Reply {
    Reply { status: Status::InternalError, text: "Data for key "@ + key + " could not be read."@ }
}

/// The answer to an upload whose body could not be read to its end.
pub fn broken(key: &str) -> (response: Response)
    ensures
        response@ == broken_reply(key@),
{
    Response::naming(Status::InternalError, "Data for key ", key, " could not be read.")
}

/// The answer to an upload whose next chunk the value has no room for.
pub open spec fn full_reply(key: Seq<char>) -> Reply {
    Reply { status: Status::InsufficientStorage, text: "Key "@ + key + " cannot hold more data."@ }
}

/// The answer to an upload whose next chunk the value has no room for.
pub fn full(key: &str) -> (response: Response)
    ensures
        response@ == full_reply(key@),
{
    Response::naming(Status::InsufficientStorage, "Key ", key, " cannot hold more data.")
}

/// The answer to a request that could not reach the store.
pub open spec fn unavailable_reply() -> Reply {
    Reply { status: Status::Unavailable, text: "Store is unavailable."@ }
}

/// The answer to a request that could not reach the store.
pub fn unavailable() -> (response: Response)
    ensures
        response@ == unavailable_reply(),
{
    Response::plain(Status::Unavailable, "Store is unavailable.")
}

/// The keys of a listing, one to a line.
pub open spec fn lines(keys: Seq<Seq<char>>) -> Seq<char>
    decreases keys.len(),
{
    if keys.len() == 0 {
        Seq::empty()
    } else {
        lines(keys.drop_last()) + keys.last() + "\n"@
    }
}

/// The answer to a listing: a line that names the prefix, then the keys.
pub open spec fn listing_reply(prefix: Seq<char>, keys: Seq<Seq<char>>) -> Reply {
    Reply {
        status: Status::Success,
        text: "List of all paths starting with "@ + prefix + ":\n"@ + lines(keys),
    }
}

/// The answer to a listing of `keys` under `prefix`.
pub fn listing(prefix: &str, keys: &Vec<String>) -> (response: Response)
    ensures
        response@ == listing_reply(prefix@, keys@.map_values(|key: String| key@)),
{
    let ghost names = keys@.map_values(|key: String| key@);
    let ghost head = "List of all paths starting with "@ + prefix@ + ":\n"@;
    let mut body = "List of all paths starting with ".to_owned();
    body.append(prefix);
    body.append(":\n");
    let mut i: usize = 0;
    while i < keys.len()
        invariant
            i <= keys.len(),
            names == keys@.map_values(|key: String| key@),
            body@ == head + lines(names.take(i as int)),
        decreases keys.len() - i,
    {
        body.append(keys[i].as_str());
        body.append("\n");
        assert(names.take(i + 1).drop_last() =~= names.take(i as int));
        i += 1;
    }
    assert(names.take(keys.len() as int) =~= names);
    Response { status: Status::Success, body }
}

} // verus!
