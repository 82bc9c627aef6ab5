//! Shared octet buffers: the type `Bytes` of the crate `bytes`.
use bytes::Bytes;
use vstd::prelude::*;

verus! {

/// The buffer type of the crate `bytes`: a handle on octets that do not change.
#[verifier::external_type_specification]
#[verifier::external_body]
pub struct ExBytes(bytes::Bytes);

/// The octets that a buffer holds.
pub uninterp spec fn bytes_contents(b: bytes::Bytes) -> Seq<u8>;

/// `Bytes::copy_from_slice` makes a buffer with a copy of the octets of the slice.
pub assume_specification[ bytes::Bytes::copy_from_slice ](data: &[u8]) -> (r: bytes::Bytes)
    ensures
        bytes_contents(r) == data@,
;

/// `Bytes::new` makes a buffer without octets.
pub assume_specification[ bytes::Bytes::new ]() -> (r: bytes::Bytes)
    ensures
        bytes_contents(r) == Seq::<u8>::empty(),
;

/// `Bytes::len` is the number of octets in the buffer.
pub assume_specification[ bytes::Bytes::len ](b: &bytes::Bytes) -> (r: usize)
    ensures
        r == bytes_contents(*b).len(),
;

/// `Bytes::is_empty` tells whether the buffer holds no octets.
pub assume_specification[ bytes::Bytes::is_empty ](b: &bytes::Bytes) -> (r: bool)
    ensures
        r == (bytes_contents(*b).len() == 0),
;

/// `Bytes::slice` with a range that has a start and no end is the buffer from that octet on. It
/// panics on a start beyond the end of the buffer.
#[verifier::external_body]
pub(crate) fn bytes_skip(b: &Bytes, n: usize) -> (r: Bytes)
    requires
        n <= bytes_contents(*b).len(),
    ensures
        bytes_contents(r) == bytes_contents(*b).skip(n as int),
{
    b.slice(n..)
}

/// `Bytes::as_ref` is the slice of the octets of the buffer.
#[verifier::external_body]
pub(crate) fn bytes_slice(b: &Bytes) -> (r: &[u8])
    ensures
        r@ == bytes_contents(*b),
{
    b.as_ref()
}

/// `Bytes::from` makes a buffer with the octets of the vector.
#[verifier::external_body]
pub(crate) fn bytes_of(v: Vec<u8>) -> (r: Bytes)
    ensures
        bytes_contents(r) == v@,
{
    Bytes::from(v)
}

} // verus!
