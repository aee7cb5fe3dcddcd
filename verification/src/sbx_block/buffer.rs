//! The byte buffer that backs a block: inline room for the largest block.

use vstd::prelude::*;
use smallvec::SmallVec;

verus! {

/// A byte buffer with inline room for the largest block: a `SmallVec` of
/// the `smallvec` crate.
#[verifier::external_body]
#[derive(Debug, PartialEq)]
pub struct BlockBuffer {
    inner: SmallVec<[u8; 4096]>,
}

/// The bytes that a block buffer holds, in order.
pub uninterp spec fn buffer_bytes(buffer: BlockBuffer) -> Seq<u8>;

/// `SmallVec::from_elem`: a buffer of `n` copies of `elem`.
#[verifier::external_body]
pub(crate) fn buffer_filled(elem: u8, n: usize) -> (buffer: BlockBuffer)
    ensures
        buffer_bytes(buffer) == Seq::new(n as nat, |i: int| elem),
{
    BlockBuffer { inner: SmallVec::from_elem(elem, n) }
}

/// `SmallVec::as_slice`: the buffer's bytes as a slice.
#[verifier::external_body]
pub(crate) fn buffer_as_slice(buffer: &BlockBuffer) -> (bytes: &[u8])
    ensures
        bytes@ == buffer_bytes(*buffer),
{
    buffer.inner.as_slice()
}

/// `SmallVec::as_mut_slice`: the buffer's bytes as a slice that can be
/// written. What is written to the slice is what the buffer then holds.
#[verifier::external_body]
pub(crate) fn buffer_as_mut_slice(buffer: &mut BlockBuffer) -> (bytes: &mut [u8])
    ensures
        bytes@ == buffer_bytes(*old(buffer)),
        buffer_bytes(*final(buffer)) == final(bytes)@,
{
    buffer.inner.as_mut_slice()
}

} // verus!
