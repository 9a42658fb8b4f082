//! The byte buffer that holds one stored value, and what is taken on trust
//! about it.
//!
//! Values live in `BytesMut` buffers of the `bytes` crate, which `actix_web`
//! hands on as `web::BytesMut`. Nothing in this file is proved: each
//! item states what the crate's source shows of one method, over
//! [`buffer_bytes`], the bytes a buffer holds.

use actix_web::web::BytesMut;
use vstd::prelude::*;

verus! {

/// `bytes::BytesMut`, carried as an opaque value.
#[verifier::external_type_specification]
#[verifier::external_body]
pub struct ExBytesMut(BytesMut);

/// The bytes that a buffer holds, first to last: what `&buffer[..]` shows.
pub uninterp spec fn buffer_bytes(buffer: BytesMut) -> Seq<u8>;

/// `BytesMut::new` hands back a buffer of length zero.
pub assume_specification[ BytesMut::new ]() -> (buffer: BytesMut)
    ensures
        buffer_bytes(buffer) == Seq::<u8>::empty(),
;

/// `BytesMut::len` is the number of bytes held.
pub assume_specification[ BytesMut::len ](buffer: &BytesMut) -> (n: usize)
    ensures
        n == buffer_bytes(*buffer).len(),
;

/// The length up to which a buffer is grown: a quarter of what one
/// allocation may span.
pub open spec fn growth_limit() -> int {
    isize::MAX / 4
}

/// `BytesMut::extend_from_slice` copies `extend` behind the bytes already
/// held and changes none of them.
///
/// It first reserves room. Where the room at hand is too small, `reserve`
/// asks `Vec::reserve` for a new allocation, which may be as large as twice
/// the one held and which panics where it would pass `isize::MAX` bytes.
/// Wherever `reserve` allocates, the allocation held is smaller than twice
/// the grown length, so a grown length within a quarter of `isize::MAX`
/// keeps every such request within `isize::MAX`. Longer results are ruled
/// out.
pub assume_specification[ BytesMut::extend_from_slice ](buffer: &mut BytesMut, extend: &[u8])
    requires
        buffer_bytes(*old(buffer)).len() + extend@.len() <= growth_limit(),
    ensures
        buffer_bytes(*final(buffer)) == buffer_bytes(*old(buffer)) + extend@,
;

/// `AsRef<[u8]>::as_ref` on a `BytesMut` borrows exactly the bytes held.
pub assume_specification<'a>[ <BytesMut as AsRef<[u8]>>::as_ref ](buffer: &'a BytesMut) -> (bytes:
    &'a [u8])
    ensures
        bytes@ == buffer_bytes(*buffer),
;

} // verus!
