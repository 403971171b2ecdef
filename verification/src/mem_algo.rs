//! In-segment memory algorithms.
//!
//! A memory algorithm owns the accounting for one segment: which byte
//! ranges are free, which are allocated, and how requests are carved out
//! of the free space.  The one algorithm provided is the sequential
//! first-fit allocator in [`simple_seq_fit`].

use vstd::prelude::*;

use crate::err::ErrorKind;

pub mod simple_seq_fit;

verus! {

/// The common face of an in-segment allocator: allocate room for `count`
/// objects of a given size and alignment, give a range back, or move an
/// allocation to a new size.  Addresses are byte offsets from the start
/// of the segment.
pub trait MemAlgo: Sized {
    /// The algorithm's internal consistency condition.
    spec fn inv(&self) -> bool;

    /// Whether `ptr` with `count` objects of `size_of` bytes is a range
    /// this algorithm handed out and still considers allocated.
    spec fn can_dealloc(&self, ptr: usize, count: usize, size_of: usize) -> bool;

    /// Allocate room for `count` objects of `size_of` bytes aligned to
    /// `align_of`, and return the payload offset.
    fn allocate(&mut self, count: usize, size_of: usize, align_of: usize) -> (r: Result<
        usize,
        ErrorKind,
    >)
        requires
            old(self).inv(),
            align_of >= 1,
            crate::mem_algo::simple_seq_fit::is_pow2(align_of as int),
        ensures
            final(self).inv(),
    ;

    /// Return the range starting at payload offset `ptr` to the free
    /// space.
    fn dealloc(&mut self, ptr: usize, count: usize, size_of: usize)
        requires
            old(self).inv(),
            old(self).can_dealloc(ptr, count, size_of),
        ensures
            final(self).inv(),
    ;

    /// Move the allocation at `ptr` from `old_count` to `new_count`
    /// objects, returning the new payload offset.
    fn realloc(&mut self, ptr: usize, old_count: usize, new_count: usize, size_of: usize,
        align_of: usize) -> (r: Result<usize, ErrorKind>)
        requires
            old(self).inv(),
            old(self).can_dealloc(ptr, old_count, size_of),
            align_of >= 1,
            crate::mem_algo::simple_seq_fit::is_pow2(align_of as int),
        ensures
            final(self).inv(),
    ;
}

} // verus!
