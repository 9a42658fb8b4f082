//! An in-memory key/value store for streamed values.
//!
//! A [`store::Store`] maps text keys to append-only byte strings. Every
//! operation borrows the store for the length of one in-memory step and never
//! across a wait: a caller that shares a store between tasks guards it with a
//! lock and holds the lock for one call at a time. The [`ingest`] and
//! [`egress`] modules turn a streamed upload or download into a run of such
//! steps, and [`handlers`] maps the outcome of each request to a response.

pub mod buffer;
pub mod egress;
pub mod handlers;
pub mod history;
pub mod ingest;
pub mod model;
pub mod replies;
pub mod response;
pub mod store;
pub mod text;
