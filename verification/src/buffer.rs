//! The growable byte buffer that reassembled streams are decoded from.
use bytes::BytesMut;
use vstd::prelude::*;

verus! {

/// `bytes::BytesMut`, a growable buffer of bytes.
#[verifier::external_type_specification]
#[verifier::external_body]
pub struct ExBytesMut(BytesMut);

/// The bytes that a buffer holds.
pub uninterp spec fn buffered(b: BytesMut) -> Seq<u8>;

/// `BytesMut::with_capacity` makes a buffer that holds no bytes.
#[verifier::external_body]
pub(crate) fn new_buffer(capacity: usize) -> (b: BytesMut)
    ensures
        buffered(b) == Seq::<u8>::empty(),
{
    BytesMut::with_capacity(capacity)
}

/// `BytesMut::extend_from_slice` appends the bytes of `data`.
#[verifier::external_body]
pub(crate) fn extend_buffer(b: &mut BytesMut, data: &[u8])
    ensures
        buffered(*final(b)) == buffered(*old(b)) + data@,
{
    b.extend_from_slice(data);
}

/// `BytesMut::clear` leaves a buffer that holds no bytes.
#[verifier::external_body]
pub(crate) fn clear_buffer(b: &mut BytesMut)
    ensures
        buffered(*final(b)) == Seq::<u8>::empty(),
{
    b.clear();
}

/// `BytesMut` dereferences to the slice of the bytes that it holds.
#[verifier::external_body]
pub(crate) fn buffer_slice(b: &BytesMut) -> (r: &[u8])
    ensures
        r@ == buffered(*b),
{
    b
}

} // verus!
