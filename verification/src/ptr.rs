//! Self-relative pointers.
//!
//! Every link stored inside a segment must survive the segment being
//! mapped at a different base address in another process.  An `OffsetPtr`
//! therefore stores only the signed displacement from its own address to
//! its target; the target is recovered by adding the displacement back to
//! the address the pointer value itself sits at.  A pointer value is
//! meaningful only at the address where it was written, so every operation
//! takes that address as an explicit argument.
//!
//! The displacement `1` is reserved as the null sentinel: all real targets
//! here are 16-byte aligned records reached from 16-byte aligned holders,
//! so a valid displacement can never be `1`.

use vstd::prelude::*;

verus! {

/// The reserved displacement that encodes null.
pub const NULL_OFFSET: isize = 1;

/// Pointers that can be re-aimed at a target and re-derived at a new
/// holder address.  Implementations differ in how they store the target.
pub trait Pointer: Sized {
    /// Whether a pointer sitting at `self_addr` may be aimed at `target`.
    spec fn can_set(self_addr: int, target: int) -> bool;

    /// The address this pointer resolves to when it sits at `self_addr`.
    spec fn target(&self, self_addr: int) -> int;

    /// Whether this pointer is the null sentinel.
    spec fn is_null_spec(&self) -> bool;

    /// Aim the pointer, sitting at `self_addr`, at `target`.
    fn set_value(&mut self, self_addr: usize, target: usize)
        requires
            Self::can_set(self_addr as int, target as int),
        ensures
            final(self).target(self_addr as int) == target as int,
            !final(self).is_null_spec(),
    ;

    /// Re-derive at `self_addr` the pointer `other` sitting at
    /// `other_addr`, so that both resolve to the same address.
    fn clone_from_at(&mut self, self_addr: usize, other: &Self, other_addr: usize)
        requires
            !other.is_null_spec() ==> Self::can_set(
                self_addr as int,
                other.target(other_addr as int),
            ),
            !other.is_null_spec() ==> 0 <= other.target(other_addr as int) <= usize::MAX,
        ensures
            final(self).is_null_spec() == other.is_null_spec(),
            !other.is_null_spec() ==> final(self).target(self_addr as int) == other.target(
                other_addr as int,
            ),
    ;
}

/// A self-relative pointer: the stored value is `target - own address`.
#[derive(Clone, Copy, PartialEq, Eq, Structural, Debug)]
pub struct OffsetPtr {
    /// The stored displacement.  Meaningful only at the address the value
    /// was written at; reading it elsewhere is the caller's mistake.
    pub offset: isize,
}

impl OffsetPtr {
    /// The stored displacement.
    pub open spec fn spec_offset(&self) -> int {
        self.offset as int
    }

    /// The address this pointer resolves to when it sits at `self_addr`.
    pub open spec fn resolve(&self, self_addr: int) -> int {
        self_addr + self.offset
    }

    /// Whether this pointer holds the null sentinel.
    pub open spec fn spec_is_null(&self) -> bool {
        self.offset == NULL_OFFSET
    }

    /// Whether a pointer at `self_addr` may be aimed at `target`: the
    /// displacement must fit a machine word and must not collide with the
    /// null sentinel.
    pub open spec fn settable(self_addr: int, target: int) -> bool {
        &&& target - self_addr <= isize::MAX
        &&& self_addr - target <= isize::MAX
        &&& target - self_addr != NULL_OFFSET
    }

    /// The null pointer.
    pub fn null() -> (r: Self)
        ensures
            r.spec_is_null(),
    {
        OffsetPtr { offset: NULL_OFFSET }
    }

    /// Whether this pointer is null.
    pub fn is_null(&self) -> (r: bool)
        ensures
            r == self.spec_is_null(),
    {
        self.offset == NULL_OFFSET
    }

    /// Aim the pointer, sitting at `self_addr`, at `target`.
    pub fn set(&mut self, self_addr: usize, target: usize)
        requires
            Self::settable(self_addr as int, target as int),
        ensures
            final(self).resolve(self_addr as int) == target as int,
            !final(self).spec_is_null(),
    {
        if target >= self_addr {
            self.offset = (target - self_addr) as isize;
        } else {
            self.offset = -((self_addr - target) as isize);
        }
    }

    /// Resolve the pointer sitting at `self_addr`.
    pub fn get(&self, self_addr: usize) -> (r: usize)
        requires
            !self.spec_is_null(),
            0 <= self.resolve(self_addr as int) <= usize::MAX,
            self.spec_offset() != isize::MIN,
        ensures
            r as int == self.resolve(self_addr as int),
    {
        if self.offset >= 0 {
            self_addr + (self.offset as usize)
        } else {
            self_addr - ((-self.offset) as usize)
        }
    }

    /// Two offset pointers are equal when their resolved addresses are
    /// equal, not when their stored displacements are.
    pub fn eq_at(&self, self_addr: usize, other: &Self, other_addr: usize) -> (r: bool)
        requires
            !self.spec_is_null(),
            !other.spec_is_null(),
            0 <= self.resolve(self_addr as int) <= usize::MAX,
            0 <= other.resolve(other_addr as int) <= usize::MAX,
            self.spec_offset() != isize::MIN,
            other.spec_offset() != isize::MIN,
        ensures
            r == (self.resolve(self_addr as int) == other.resolve(other_addr as int)),
    {
        self.get(self_addr) == other.get(other_addr)
    }
}

impl Pointer for OffsetPtr {
    open spec fn can_set(self_addr: int, target: int) -> bool {
        OffsetPtr::settable(self_addr, target)
    }

    open spec fn target(&self, self_addr: int) -> int {
        self.resolve(self_addr)
    }

    open spec fn is_null_spec(&self) -> bool {
        self.spec_is_null()
    }

    fn set_value(&mut self, self_addr: usize, target: usize) {
        self.set(self_addr, target);
    }

    fn clone_from_at(&mut self, self_addr: usize, other: &Self, other_addr: usize) {
        if other.is_null() {
            self.offset = NULL_OFFSET;
        } else {
            if other.offset >= 0 {
                let target = other_addr + (other.offset as usize);
                self.set(self_addr, target);
            } else {
                let magnitude = ((-(other.offset + 1)) as usize) + 1;
                assert(magnitude as int == -other.spec_offset());
                let target = other_addr - magnitude;
                self.set(self_addr, target);
            }
        }
    }
}

/// Store in `me`, sitting at `me_addr`, the displacement that reaches
/// `target`.
pub fn from_ptr(me: &mut OffsetPtr, me_addr: usize, target: usize)
    requires
        OffsetPtr::settable(me_addr as int, target as int),
    ensures
        final(me).resolve(me_addr as int) == target as int,
        !final(me).spec_is_null(),
{
    me.set(me_addr, target);
}

} // verus!
