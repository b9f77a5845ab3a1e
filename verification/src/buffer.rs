//! What the framing logic relies on from `bytes::BytesMut`.
//!
//! Nothing in this file is proved: each contract restates the documentation
//! of the method it is attached to.
use bytes::BytesMut;
use vstd::prelude::*;

verus! {

/// `bytes::BytesMut`, a growable byte buffer. Nothing is known of a value
/// but through [`buffered`].
#[verifier::external_type_specification]
#[verifier::external_body]
pub struct ExBytesMut(bytes::BytesMut);

/// The bytes that a buffer holds, first to last.
pub uninterp spec fn buffered(buf: BytesMut) -> Seq<u8>;

/// `BytesMut::len`: the number of bytes that the buffer holds.
pub assume_specification[ BytesMut::len ](buf: &BytesMut) -> (n: usize)
    ensures
        n == buffered(*buf).len(),
;

/// `BytesMut::split_to`: the first `at` bytes leave the buffer and are
/// returned, the others stay in their order. The method panics when `at` is
/// beyond the length, which the precondition leaves out.
pub assume_specification[ BytesMut::split_to ](buf: &mut BytesMut, at: usize) -> (front: BytesMut)
    requires
        at <= buffered(*old(buf)).len(),
    ensures
        buffered(front) == buffered(*old(buf)).subrange(0, at as int),
        buffered(*final(buf)) == buffered(*old(buf)).skip(at as int),
;

/// `BytesMut::reserve`: room is made for `additional` more bytes and what the
/// buffer holds stays as it is. The method is documented to panic when the
/// new capacity overflows; the precondition keeps the length asked for within
/// `isize::MAX`, the most that an allocation can hold.
pub assume_specification[ BytesMut::reserve ](buf: &mut BytesMut, additional: usize)
    requires
        buffered(*old(buf)).len() + additional <= isize::MAX,
    ensures
        buffered(*final(buf)) == buffered(*old(buf)),
;

/// `AsRef<[u8]>::as_ref` of `BytesMut`: the buffer's bytes as a slice.
#[verifier::external_body]
pub(crate) fn as_slice(buf: &BytesMut) -> (bytes: &[u8])
    ensures
        bytes@ == buffered(*buf),
{
    buf.as_ref()
}

} // verus!
