//! The byte buffers of the `bytes` crate, by what they hold.

use vstd::prelude::*;

verus! {

/// `bytes::Bytes`, an immutable shared byte string.
#[verifier::external_type_specification]
#[verifier::external_body]
pub struct ExBytes(bytes::Bytes);

/// `bytes::BytesMut`, a growable byte string that can be cut at the front.
#[verifier::external_type_specification]
#[verifier::external_body]
pub struct ExBytesMut(bytes::BytesMut);

/// The bytes that `b` holds.
pub uninterp spec fn bytes_content(b: bytes::Bytes) -> Seq<u8>;

/// The bytes that `b` holds.
pub uninterp spec fn bytes_mut_content(b: bytes::BytesMut) -> Seq<u8>;

/// `bytes::Bytes::len`: the number of bytes held.
pub assume_specification[ bytes::Bytes::len ](b: &bytes::Bytes) -> (n: usize)
    ensures
        n == bytes_content(*b).len(),
;

/// `bytes::Bytes::is_empty`: true exactly when no byte is held.
pub assume_specification[ bytes::Bytes::is_empty ](b: &bytes::Bytes) -> (empty: bool)
    ensures
        empty == (bytes_content(*b).len() == 0),
;

/// `bytes::Bytes::copy_from_slice`: a new buffer that holds the slice's bytes.
pub assume_specification[ bytes::Bytes::copy_from_slice ](data: &[u8]) -> (b: bytes::Bytes)
    ensures
        bytes_content(b) == data@,
;

/// `bytes::BytesMut::new`: an empty buffer.
pub assume_specification[ bytes::BytesMut::new ]() -> (b: bytes::BytesMut)
    ensures
        bytes_mut_content(b) == Seq::<u8>::empty(),
;

/// `bytes::BytesMut::len`: the number of bytes held.
pub assume_specification[ bytes::BytesMut::len ](b: &bytes::BytesMut) -> (n: usize)
    ensures
        n == bytes_mut_content(*b).len(),
;

/// `bytes::BytesMut::is_empty`: true exactly when no byte is held.
pub assume_specification[ bytes::BytesMut::is_empty ](b: &bytes::BytesMut) -> (empty: bool)
    ensures
        empty == (bytes_mut_content(*b).len() == 0),
;

/// `bytes::BytesMut::extend_from_slice`: appends the slice's bytes.
/// Like `Vec`, it needs the memory to hold them.
pub assume_specification[ bytes::BytesMut::extend_from_slice ](
    b: &mut bytes::BytesMut,
    extend: &[u8],
)
    ensures
        bytes_mut_content(*final(b)) == bytes_mut_content(*old(b)) + extend@,
;

/// `bytes::BytesMut::split_to`: cuts off and returns the first `at` bytes.
/// It panics when fewer are held.
pub assume_specification[ bytes::BytesMut::split_to ](
    b: &mut bytes::BytesMut,
    at: usize,
) -> (head: bytes::BytesMut)
    requires
        at <= bytes_mut_content(*old(b)).len(),
    ensures
        bytes_mut_content(head) == bytes_mut_content(*old(b)).take(at as int),
        bytes_mut_content(*final(b)) == bytes_mut_content(*old(b)).skip(at as int),
;

/// `bytes::BytesMut::freeze`: the same bytes, immutable from now on.
pub assume_specification[ bytes::BytesMut::freeze ](b: bytes::BytesMut) -> (frozen: bytes::Bytes)
    ensures
        bytes_content(frozen) == bytes_mut_content(b),
;

/// `bytes::Bytes::as_ref`: the bytes held, as a slice.
#[verifier::external_body]
pub(crate) fn bytes_slice(b: &bytes::Bytes) -> (s: &[u8])
    ensures
        s@ == bytes_content(*b),
{
    b.as_ref()
}

/// `bytes::Bytes::from` on a `Vec<u8>`: a buffer that holds the vector's bytes.
#[verifier::external_body]
pub(crate) fn bytes_from_vec(v: Vec<u8>) -> (b: bytes::Bytes)
    ensures
        bytes_content(b) == v@,
{
    bytes::Bytes::from(v)
}

} // verus!
