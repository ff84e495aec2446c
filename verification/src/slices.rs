//! Parts of a byte slice.

use vstd::prelude::*;

verus! {

/// Mutable indexing of a slice by `from..`, of std: the part of `buf` from
/// index `from` on. Writing through the result changes that part of `buf`
/// and leaves the bytes before it as they were.
#[verifier::external_body]
pub(crate) fn tail_mut(buf: &mut [u8], from: usize) -> (tail: &mut [u8])
    requires
        from <= old(buf)@.len(),
    ensures
        tail@ == old(buf)@.skip(from as int),
        final(buf)@ == old(buf)@.take(from as int) + final(tail)@,
        final(tail)@.len() == tail@.len(),
{
    &mut buf[from..]
}

/// Mutable indexing of a slice by `..to`, of std: the first `to` bytes of
/// `buf`. Writing through the result changes that part of `buf` and leaves
/// the bytes after it as they were.
#[verifier::external_body]
pub(crate) fn head_mut(buf: &mut [u8], to: usize) -> (head: &mut [u8])
    requires
        to <= old(buf)@.len(),
    ensures
        head@ == old(buf)@.take(to as int),
        final(buf)@ == final(head)@ + old(buf)@.skip(to as int),
        final(head)@.len() == head@.len(),
{
    &mut buf[..to]
}

} // verus!
