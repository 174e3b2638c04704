//! The byte buffers that frames are read from, and what is assumed of them.
//!
//! The buffers are those of the `bytes` crate. Verus does not look inside
//! them: what a buffer holds is given a name, and each method that the codec
//! calls gets a wrapper whose contract says, over that name, what the method
//! does. Nothing in this file is proved.

use vstd::prelude::*;
use bytes::Buf;
use bytes::Bytes;
use bytes::BytesMut;

verus! {

/// `bytes`' growable buffer, taken as a type whose inside is not seen.
#[verifier::external_type_specification]
#[verifier::external_body]
pub struct ExBytesMut(BytesMut);

/// `bytes`' frozen buffer, taken as a type whose inside is not seen.
#[verifier::external_type_specification]
#[verifier::external_body]
pub struct ExBytes(Bytes);

/// The bytes that a growable buffer holds, in order.
pub uninterp spec fn buffer_bytes(b: BytesMut) -> Seq<u8>;

/// The bytes that a frozen buffer holds, in order.
pub uninterp spec fn frozen_bytes(b: Bytes) -> Seq<u8>;

/// `BytesMut::len`: how many bytes the buffer holds.
#[verifier::external_body]
pub(crate) fn buffer_len(b: &BytesMut) -> (r: usize)
    ensures
        r == buffer_bytes(*b).len(),
{
    b.len()
}

/// Indexing a `BytesMut` as a slice: the byte at a position, which must be
/// below the length, as the slice panics otherwise.
#[verifier::external_body]
pub(crate) fn buffer_byte(b: &BytesMut, i: usize) -> (r: u8)
    requires
        i < buffer_bytes(*b).len(),
    ensures
        r == buffer_bytes(*b)[i as int],
{
    b[i]
}

/// `Buf::advance` on a `BytesMut`: the first `cnt` bytes leave the buffer.
/// It panics when the buffer holds fewer, which `requires` leaves out.
#[verifier::external_body]
pub(crate) fn buffer_advance(b: &mut BytesMut, cnt: usize)
    requires
        cnt <= buffer_bytes(*old(b)).len(),
    ensures
        buffer_bytes(*final(b)) == buffer_bytes(*old(b)).subrange(
            cnt as int,
            buffer_bytes(*old(b)).len() as int,
        ),
{
    b.advance(cnt)
}

/// `BytesMut::split_to`: the first `at` bytes leave the buffer and come back
/// as a buffer of their own. It panics when the buffer holds fewer, which
/// `requires` leaves out.
#[verifier::external_body]
pub(crate) fn buffer_split_to(b: &mut BytesMut, at: usize) -> (r: BytesMut)
    requires
        at <= buffer_bytes(*old(b)).len(),
    ensures
        buffer_bytes(r) == buffer_bytes(*old(b)).subrange(0, at as int),
        buffer_bytes(*final(b)) == buffer_bytes(*old(b)).subrange(
            at as int,
            buffer_bytes(*old(b)).len() as int,
        ),
{
    b.split_to(at)
}

/// `BytesMut::freeze`: the same bytes in a buffer that cannot change.
#[verifier::external_body]
pub(crate) fn buffer_freeze(b: BytesMut) -> (r: Bytes)
    ensures
        frozen_bytes(r) == buffer_bytes(b),
{
    b.freeze()
}

/// `Bytes::len`: how many bytes the frozen buffer holds.
#[verifier::external_body]
pub(crate) fn frozen_len(b: &Bytes) -> (r: usize)
    ensures
        r == frozen_bytes(*b).len(),
{
    b.len()
}

} // verus!
