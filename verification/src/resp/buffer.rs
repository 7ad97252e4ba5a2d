//! The byte buffer that the transport fills and the decoder reads.

use bytes::{BufMut, BytesMut};
use vstd::prelude::*;

verus! {

/// A growable byte buffer of the `bytes` crate.
#[verifier::external_type_specification]
#[verifier::external_body]
pub struct ExBytesMut(BytesMut);

/// The bytes that a buffer holds, the oldest first.
pub uninterp spec fn contents(buf: BytesMut) -> Seq<u8>;

/// `BytesMut::as_ref` gives the bytes that the buffer holds, as a slice.
pub assume_specification[ <BytesMut as AsRef<[u8]>>::as_ref ](buf: &BytesMut) -> (s: &[u8])
    ensures
        s@ == contents(*buf),
;

/// `BytesMut::split_to` takes the first `at` bytes out of the buffer and
/// returns them; the buffer keeps the others. It panics where `at` is more
/// than the buffer holds.
pub assume_specification[ BytesMut::split_to ](buf: &mut BytesMut, at: usize) -> (front: BytesMut)
    requires
        at <= contents(*old(buf)).len(),
    ensures
        contents(*final(buf)) == contents(*old(buf)).skip(at as int),
        contents(front) == contents(*old(buf)).take(at as int),
;

/// `BufMut::put` on a `BytesMut`, with a slice: the bytes of the slice are
/// added behind those that the buffer holds, and the buffer grows as far as
/// needed. Growing beyond what can be allocated panics, which the bound
/// leaves out.
#[verifier::external_body]
pub(crate) fn put_slice(buf: &mut BytesMut, bytes: &[u8])
    requires
        contents(*old(buf)).len() + bytes@.len() <= isize::MAX,
    ensures
        contents(*final(buf)) == contents(*old(buf)) + bytes@,
{
    buf.put(bytes);
}

/// `BytesMut::len` is the number of bytes that the buffer holds.
pub assume_specification[ BytesMut::len ](buf: &BytesMut) -> (n: usize)
    ensures
        n == contents(*buf).len(),
;

} // verus!
