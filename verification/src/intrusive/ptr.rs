//! Cursors over optional links.

use vstd::prelude::*;

verus! {

/// A read cursor over an optional link.
pub struct RefPtr<P> {
    /// The link under the cursor.
    pub ptr: Option<P>,
}

impl<P> RefPtr<P> {
    /// A cursor over `ptr`.
    pub fn new(ptr: Option<P>) -> (r: Self)
        ensures
            r.ptr == ptr,
    {
        RefPtr { ptr }
    }

    /// The link under the cursor.
    pub fn get(&self) -> (r: &Option<P>)
        ensures
            *r == self.ptr,
    {
        &self.ptr
    }

    /// Move the cursor to `ptr`.
    pub fn set(&mut self, ptr: Option<P>)
        ensures
            final(self).ptr == ptr,
    {
        self.ptr = ptr;
    }
}

/// A write cursor over an optional link.
pub struct MutPtr<P> {
    /// The link under the cursor.
    pub ptr: Option<P>,
}

impl<P> MutPtr<P> {
    /// A cursor over `ptr`.
    pub fn new(ptr: Option<P>) -> (r: Self)
        ensures
            r.ptr == ptr,
    {
        MutPtr { ptr }
    }

    /// Borrow the link under the cursor for writing.
    pub fn get(&mut self) -> (r: &mut Option<P>)
        ensures
            *r == old(self).ptr,
            final(self).ptr == *final(r),
    {
        &mut self.ptr
    }

    /// Move the cursor to `ptr`.
    pub fn set(&mut self, ptr: Option<P>)
        ensures
            final(self).ptr == ptr,
    {
        self.ptr = ptr;
    }
}

} // verus!
