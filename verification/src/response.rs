//! What a request is answered with: a status and a text.

use vstd::prelude::*;
use vstd::string::StringExecFns;

verus! {

/// The class of an answer.
#[derive(Clone, Copy, PartialEq, Eq, Debug, Structural)]
pub enum Status {
    /// The request was carried out, or refused without fault.
    Success,
    /// The key is absent.
    NotFound,
    /// The key was deleted while data for it were still coming in.
    Conflict,
    /// The request's body could not be read to its end.
    InternalError,
    /// The store could not be reached for this request.
    Unavailable,
    /// The value cannot grow by what was sent.
    InsufficientStorage,
}

impl Status {
    /// The HTTP status code that stands for the status.
    pub open spec fn code_of(self) -> u16 {
        match self {
            Status::Success => 200,
            Status::NotFound => 404,
            Status::Conflict => 409,
            Status::InternalError => 500,
            Status::Unavailable => 503,
            Status::InsufficientStorage => 507,
        }
    }

    /// The HTTP status code that stands for the status.
    pub fn code(self) -> (code: u16)
        ensures
            code == self.code_of(),
    {
        match self {
            Status::Success => 200,
            Status::NotFound => 404,
            Status::Conflict => 409,
            Status::InternalError => 500,
            Status::Unavailable => 503,
            Status::InsufficientStorage => 507,
        }
    }
}

/// An answer with its text in full.
#[derive(PartialEq, Eq, Debug)]
pub struct Response {
    pub status: Status,
    pub body: String,
}

/// An answer as contracts speak of it: the status, and the text as a sequence
/// of characters.
pub struct Reply {
    pub status: Status,
    pub text: Seq<char>,
}

impl View for Response {
    type V = Reply;

    open spec fn view(&self) -> Reply {
        Reply { status: self.status, text: self.body@ }
    }
}

impl Response {
    /// An answer whose text is `text`.
    pub fn plain(status: Status, text: &str) -> (response: Response)
        ensures
            response@ == (Reply { status, text: text@ }),
    {
        Response { status, body: text.to_owned() }
    }

    /// An answer whose text is `before`, then `name`, then `after`.
    pub fn naming(status: Status, before: &str, name: &str, after: &str) -> (response: Response)
        ensures
            response@ == (Reply { status, text: before@ + name@ + after@ }),
    {
        let mut body = before.to_owned();
        body.append(name);
        body.append(after);
        Response { status, body }
    }
}

} // verus!
