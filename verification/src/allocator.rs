//! General-purpose allocation for the container types.
//!
//! The container list obtains its nodes through an `Allocator`, so the
//! backing store can be swapped; `Alloc` is the plain process-heap
//! implementation.

use vstd::prelude::*;

verus! {

/// An allocator of single values: it hands out owned boxes and takes
/// them back.
pub trait Allocator<T>: Sized {
    /// Allocate room for `value` and move it there.
    fn allocate(&mut self, value: T) -> (r: Box<T>)
        ensures
            *r == value,
    ;

    /// Return an allocation.
    fn dealloc(&mut self, ptr: Box<T>);

    /// Move the allocation's contents to a fresh place holding `value`.
    fn realloc(&mut self, ptr: Box<T>, value: T) -> (r: Box<T>)
        ensures
            *r == value,
    ;
}

/// The process-heap allocator.
pub struct Alloc;

impl Alloc {
    /// A fresh heap allocator.
    pub fn new() -> (r: Self) {
        Alloc
    }
}

impl<T> Allocator<T> for Alloc {
    fn allocate(&mut self, value: T) -> (r: Box<T>) {
        Box::new(value)
    }

    fn dealloc(&mut self, ptr: Box<T>) {
    }

    fn realloc(&mut self, ptr: Box<T>, value: T) -> (r: Box<T>) {
        Box::new(value)
    }
}

} // verus!
