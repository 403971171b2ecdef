//! The adapter a list is instantiated with: it names the value type
//! stored and the size accounting policy used.

use vstd::prelude::*;

use crate::intrusive::size::Size;

verus! {

/// Configuration of an intrusive-style container.
pub trait Adapter {
    /// The values the container holds.
    type Value;

    /// The size accounting policy.
    type Size: Size;
}

} // verus!
