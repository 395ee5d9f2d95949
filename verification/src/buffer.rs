//! The read buffer of a connection, as the `bytes` crate provides it.

use vstd::prelude::*;

verus! {

/// `bytes::BytesMut`, taken as it is: nothing inside a buffer is visible here but through
/// [`buffer_contents`].
#[verifier::external_type_specification]
#[verifier::external_body]
pub struct ExBytesMut(bytes::BytesMut);

/// The bytes that a buffer holds, from its first to its last: what `BytesMut` dereferences to.
pub uninterp spec fn buffer_contents(buffer: bytes::BytesMut) -> Seq<u8>;

/// `<BytesMut as AsRef<[u8]>>::as_ref`: the slice of the bytes that the buffer holds. The slice
/// is the buffer's contents by definition of [`buffer_contents`]; nothing else is claimed.
#[verifier::external_body]
pub(crate) fn buffer_bytes(buffer: &bytes::BytesMut) -> (bytes: &[u8])
    ensures
        bytes@ == buffer_contents(*buffer),
{
    buffer.as_ref()
}

} // verus!
