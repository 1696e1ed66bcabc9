//! The byte buffers of the `bytes` crate, as the codecs see them: a sequence of bytes.
use vstd::prelude::*;

verus! {

#[verifier::external_type_specification]
#[verifier::external_body]
pub struct ExBytesMut(bytes::BytesMut);

#[verifier::external_type_specification]
#[verifier::external_body]
pub struct ExBytes(bytes::Bytes);

/// The bytes that a `BytesMut` holds, front first.
pub uninterp spec fn bytes_mut_contents(b: bytes::BytesMut) -> Seq<u8>;

/// The bytes that a `Bytes` holds, front first.
pub uninterp spec fn bytes_contents(b: bytes::Bytes) -> Seq<u8>;

/// `BytesMut::len`: the number of bytes held.
#[verifier::external_body]
pub(crate) fn buf_len(b: &bytes::BytesMut) -> (n: usize)
    ensures
        n == bytes_mut_contents(*b).len(),
{
    b.len()
}

/// Indexing a `BytesMut` (through its `Deref` to `[u8]`): the byte at `i`.
#[verifier::external_body]
pub(crate) fn buf_byte(b: &bytes::BytesMut, i: usize) -> (r: u8)
    requires
        i < bytes_mut_contents(*b).len(),
    ensures
        r == bytes_mut_contents(*b)[i as int],
{
    b[i]
}

/// `BytesMut` as a byte slice (its `Deref`).
#[verifier::external_body]
pub(crate) fn buf_as_slice(b: &bytes::BytesMut) -> (r: &[u8])
    ensures
        r@ == bytes_mut_contents(*b),
{
    b
}

/// `Bytes` as a byte slice (its `Deref`).
#[verifier::external_body]
pub(crate) fn bytes_as_slice(b: &bytes::Bytes) -> (r: &[u8])
    ensures
        r@ == bytes_contents(*b),
{
    b
}

/// `BytesMut::split_to`: the first `at` bytes leave `b` and are returned.
#[verifier::external_body]
pub(crate) fn buf_split_to(b: &mut bytes::BytesMut, at: usize) -> (r: bytes::BytesMut)
    requires
        at <= bytes_mut_contents(*old(b)).len(),
    ensures
        bytes_mut_contents(r) == bytes_mut_contents(*old(b)).take(at as int),
        bytes_mut_contents(*final(b)) == bytes_mut_contents(*old(b)).skip(at as int),
{
    b.split_to(at)
}

/// `Buf::advance` on a `BytesMut`: the first `cnt` bytes are dropped.
#[verifier::external_body]
pub(crate) fn buf_advance(b: &mut bytes::BytesMut, cnt: usize)
    requires
        cnt <= bytes_mut_contents(*old(b)).len(),
    ensures
        bytes_mut_contents(*final(b)) == bytes_mut_contents(*old(b)).skip(cnt as int),
{
    bytes::Buf::advance(b, cnt)
}

/// `BytesMut::freeze`: the same bytes, as an immutable `Bytes`.
#[verifier::external_body]
pub(crate) fn buf_freeze(b: bytes::BytesMut) -> (r: bytes::Bytes)
    ensures
        bytes_contents(r) == bytes_mut_contents(b),
{
    b.freeze()
}

/// `BytesMut::extend_from_slice`: the bytes of `s` are appended.
#[verifier::external_body]
pub(crate) fn buf_extend(b: &mut bytes::BytesMut, s: &[u8])
    ensures
        bytes_mut_contents(*final(b)) == bytes_mut_contents(*old(b)) + s@,
{
    b.extend_from_slice(s)
}


/// `BytesMut::new`: an empty buffer.
#[verifier::external_body]
pub(crate) fn buf_new() -> (r: bytes::BytesMut)
    ensures
        bytes_mut_contents(r) == Seq::<u8>::empty(),
{
    bytes::BytesMut::new()
}

} // verus!
