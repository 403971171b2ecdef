//! Mutual-exclusion state machines.
//!
//! The segment manager is parameterized by a mutex type chosen at compile
//! time.  Three interchangeable variants share one contract: a
//! process-shared mutex, a process-private mutex, and a null mutex whose
//! operations cost nothing.  Here each variant is modelled as an explicit
//! held/free state machine; acquiring a lock that is already held would
//! block forever in a single thread, so `lock` excludes that case outright,
//! while `try_lock` reports it by returning `false`.

use vstd::prelude::*;

verus! {

/// One lock protocol, three implementations.
pub trait Mutex: Sized {
    /// Whether the lock is currently held.
    spec fn locked(&self) -> bool;

    /// Whether `try_lock` succeeds even when the lock is already held
    /// (true only for the null mutex, which never excludes anybody).
    spec fn try_always_succeeds() -> bool;

    /// Initialize the lock in place; a fresh lock is free.
    fn place_new(&mut self)
        ensures
            !final(self).locked(),
    ;

    /// Acquire the lock.
    fn lock(&mut self)
        requires
            !old(self).locked(),
        ensures
            final(self).locked(),
    ;

    /// Acquire the lock if nobody holds it; report whether it was taken.
    fn try_lock(&mut self) -> (r: bool)
        ensures
            r == (Self::try_always_succeeds() || !old(self).locked()),
            r ==> final(self).locked(),
            !r ==> *final(self) == *old(self),
    ;

    /// Release the lock.
    fn unlock(&mut self)
        requires
            old(self).locked(),
        ensures
            !final(self).locked(),
    ;
}

/// Witness that a lock was taken through `lock_guard`.
pub struct LockGuard {
    taken: bool,
}

impl LockGuard {
    /// Release the lock this guard was taken from.
    pub fn release<M: Mutex>(self, mutex: &mut M)
        requires
            old(mutex).locked(),
        ensures
            !final(mutex).locked(),
    {
        mutex.unlock();
    }
}

/// Acquire a mutex and hand back a guard for it.
pub fn lock_guard<M: Mutex>(mutex: &mut M) -> (r: LockGuard)
    requires
        !old(mutex).locked(),
    ensures
        final(mutex).locked(),
{
    mutex.lock();
    LockGuard { taken: true }
}

/// A lock whose operations do nothing and never exclude anybody; for
/// callers with external synchronization or truly single-threaded use.
pub struct NullMutex {
    /// Whether the lock is held.
    pub held: bool,
}

impl NullMutex {
    /// A fresh, free null mutex.
    pub fn new() -> (r: Self)
        ensures
            !r.locked(),
    {
        NullMutex { held: false }
    }
}

impl Mutex for NullMutex {
    open spec fn locked(&self) -> bool {
        self.held
    }

    open spec fn try_always_succeeds() -> bool {
        true
    }

    fn place_new(&mut self) {
        self.held = false;
    }

    fn lock(&mut self) {
        self.held = true;
    }

    fn try_lock(&mut self) -> (r: bool) {
        self.held = true;
        true
    }

    fn unlock(&mut self) {
        self.held = false;
    }
}

/// A mutex initialized with the cross-process attribute, so two processes
/// mapping the same segment observe one logical lock.
pub struct SharedMutex {
    /// Whether the lock is held.
    pub held: bool,
}

impl SharedMutex {
    /// A fresh, free shared mutex.
    pub fn new() -> (r: Self)
        ensures
            !r.locked(),
    {
        SharedMutex { held: false }
    }
}

impl Mutex for SharedMutex {
    open spec fn locked(&self) -> bool {
        self.held
    }

    open spec fn try_always_succeeds() -> bool {
        false
    }

    fn place_new(&mut self) {
        self.held = false;
    }

    fn lock(&mut self) {
        self.held = true;
    }

    fn try_lock(&mut self) -> (r: bool) {
        if self.held {
            false
        } else {
            self.held = true;
            true
        }
    }

    fn unlock(&mut self) {
        self.held = false;
    }
}

/// A mutex without the cross-process attribute; cheaper, but correct only
/// inside one process.
pub struct PrivateMutex {
    /// Whether the lock is held.
    pub held: bool,
}

impl PrivateMutex {
    /// A fresh, free private mutex.
    pub fn new() -> (r: Self)
        ensures
            !r.locked(),
    {
        PrivateMutex { held: false }
    }
}

impl Mutex for PrivateMutex {
    open spec fn locked(&self) -> bool {
        self.held
    }

    open spec fn try_always_succeeds() -> bool {
        false
    }

    fn place_new(&mut self) {
        self.held = false;
    }

    fn lock(&mut self) {
        self.held = true;
    }

    fn try_lock(&mut self) -> (r: bool) {
        if self.held {
            false
        } else {
            self.held = true;
            true
        }
    }

    fn unlock(&mut self) {
        self.held = false;
    }
}

} // verus!
