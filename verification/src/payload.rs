//! Payload buffers: the session stores outbound and inbound payloads as
//! cheaply cloneable byte buffers from the `bytes` crate. The buffer type is
//! opaque to the verifier; its contents are reached through [`bytes_data`].

use vstd::prelude::*;

verus! {

#[verifier::external_type_specification]
#[verifier::external_body]
pub struct ExBytes(bytes::Bytes);

/// The bytes a buffer holds.
pub uninterp spec fn bytes_data(b: bytes::Bytes) -> Seq<u8>;

/// Relies on `bytes::Bytes::copy_from_slice`: the returned buffer holds a
/// copy of exactly the bytes of the given slice.
#[verifier::external_body]
pub(crate) fn bytes_copy(data: &[u8]) -> (r: bytes::Bytes)
    ensures
        bytes_data(r) == data@,
{
    bytes::Bytes::copy_from_slice(data)
}

/// Relies on the buffer's slice view (`Bytes` dereferences to `[u8]`) and
/// `slice::to_vec`: a copy of exactly the buffer's bytes.
#[verifier::external_body]
pub(crate) fn bytes_to_vec(b: &bytes::Bytes) -> (r: Vec<u8>)
    ensures
        r@ == bytes_data(*b),
{
    b.to_vec()
}

} // verus!
