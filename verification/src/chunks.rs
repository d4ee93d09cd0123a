//! Cutting a payload into the chunks that a FIFO takes at a time.

use vstd::prelude::*;

verus! {

/// Where the chunk that starts at `start` ends: `chunk` bytes on, or at the
/// end of the payload where fewer are left.
pub open spec fn chunk_end(start: int, len: int, chunk: int) -> int {
    if len - start > chunk {
        start + chunk
    } else {
        len
    }
}

/// The end of the chunk that starts at `start` in a payload of `len` bytes.
pub fn next_chunk_end(start: usize, len: usize, chunk: usize) -> (end: usize)
    requires
        start <= len,
    ensures
        end == chunk_end(start as int, len as int, chunk as int),
        start <= end <= len,
{
    if len - start > chunk {
        start + chunk
    } else {
        len
    }
}

} // verus!
