//! Owning containers built over the allocators.

use vstd::prelude::*;

pub mod slist;

verus! {

/// Values the containers can shuffle between slots.
pub trait Data: Sized {
    /// Take `other`'s value into `self`.
    fn data_move(&mut self, other: &mut Self)
        ensures
            *final(self) == *old(other),
    ;
}

impl<T: Copy> Data for T {
    fn data_move(&mut self, other: &mut Self) {
        *self = *other;
    }
}

} // verus!
