//! A managed shared-memory segment: a fixed-size byte range that hosts a
//! small first-fit allocator and a name directory, addressed through
//! self-relative offset pointers so the same bytes can be mapped at
//! different base addresses in different processes.
//!
//! Everything that decides or computes lives here and is verified: the
//! offset-pointer arithmetic, the free-list allocator, the segment manager
//! with its directory, the page-offset fixup, and the flag tables and retry
//! logic of the backing-store builders.  The system calls that actually
//! obtain and release mappings are performed by unverified callers, which
//! hand plain values (sizes, offsets, error codes) in and out.

use vstd::prelude::*;

pub mod allocator;

pub mod container;

pub mod err;

pub mod intrusive;

pub mod mapped_region;

pub mod mem_algo;

pub mod ptr;

pub mod segment_manager_impl;

pub mod sync;

use crate::segment_manager_impl::NamedEntry;

verus! {

/// A managed segment: an in-segment allocator together with the name
/// directory that maps names to allocations.  The manager is a view over
/// the segment's bytes; it does not own the mapping itself.
pub struct SegmentManager<A> {
    /// The in-segment allocator, with its embedded mutex.
    pub algo: A,
    /// The name directory.
    pub index: Vec<NamedEntry>,
}

} // verus!
