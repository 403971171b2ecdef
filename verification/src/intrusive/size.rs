//! Size accounting policies for the containers.
//!
//! A list either keeps a running element count (`usize`) or carries no
//! count and answers size queries from the container itself
//! (`NotIncludeSize`).

use vstd::prelude::*;

verus! {

/// A size accounting policy.
pub trait Size: Sized {
    /// The running count this policy stores, if it stores one.
    spec fn stored(&self) -> nat;

    /// Whether the policy stores a running count.
    spec fn uses_stored() -> bool;

    /// A fresh counter at zero.
    fn new() -> (r: Self)
        ensures
            Self::uses_stored() ==> r.stored() == 0,
    ;

    /// The element count, given the container's own count `actual`;
    /// a stored count must agree with it.
    fn count(&self, actual: usize) -> (r: usize)
        requires
            Self::uses_stored() ==> self.stored() == actual,
        ensures
            r == actual,
    ;

    /// Add `n` to the count.
    fn add(&mut self, n: usize)
        requires
            Self::uses_stored() ==> old(self).stored() + n <= usize::MAX,
        ensures
            Self::uses_stored() ==> final(self).stored() == old(self).stored() + n,
    ;

    /// Subtract `n` from the count.
    fn sub(&mut self, n: usize)
        requires
            Self::uses_stored() ==> n <= old(self).stored(),
        ensures
            Self::uses_stored() ==> final(self).stored() == old(self).stored() - n,
    ;

    /// Add one.
    fn inc(&mut self)
        requires
            Self::uses_stored() ==> old(self).stored() + 1 <= usize::MAX,
        ensures
            Self::uses_stored() ==> final(self).stored() == old(self).stored() + 1,
    ;

    /// Subtract one.
    fn dec(&mut self)
        requires
            Self::uses_stored() ==> 1 <= old(self).stored(),
        ensures
            Self::uses_stored() ==> final(self).stored() == old(self).stored() - 1,
    ;
}

impl Size for usize {
    open spec fn stored(&self) -> nat {
        *self as nat
    }

    open spec fn uses_stored() -> bool {
        true
    }

    fn new() -> (r: Self) {
        0
    }

    fn count(&self, actual: usize) -> (r: usize) {
        *self
    }

    fn add(&mut self, n: usize) {
        *self = *self + n;
    }

    fn sub(&mut self, n: usize) {
        *self = *self - n;
    }

    fn inc(&mut self) {
        *self = *self + 1;
    }

    fn dec(&mut self) {
        *self = *self - 1;
    }
}

/// The policy that stores nothing and defers to the container.
pub struct NotIncludeSize;

impl Size for NotIncludeSize {
    open spec fn stored(&self) -> nat {
        0
    }

    open spec fn uses_stored() -> bool {
        false
    }

    fn new() -> (r: Self) {
        NotIncludeSize
    }

    fn count(&self, actual: usize) -> (r: usize) {
        actual
    }

    fn add(&mut self, n: usize) {
    }

    fn sub(&mut self, n: usize) {
    }

    fn inc(&mut self) {
    }

    fn dec(&mut self) {
    }
}

} // verus!
