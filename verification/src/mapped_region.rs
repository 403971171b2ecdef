//! Mapped regions and the builders that produce them.
//!
//! A mapped region is a named, sized byte range obtained from one of
//! several backing stores: a regular file, a POSIX shared-memory
//! object, a System V (XSI) shared-memory segment, or an anonymous
//! shared mapping.  The system calls that obtain and release the range
//! are made by unverified callers; everything those calls are given and
//! everything decided about their results — page-offset arithmetic,
//! flag selection, bounds checks, and the create/open retry policy — is
//! computed and verified here.

use vstd::prelude::*;

pub mod posix;

verus! {

/// `O_RDONLY`: open for reading.
pub const O_RDONLY: i32 = 0;

/// `O_RDWR`: open for reading and writing.
pub const O_RDWR: i32 = 2;

/// `PROT_READ`: pages may be read.
pub const PROT_READ: i32 = 1;

/// `PROT_WRITE`: pages may be written.
pub const PROT_WRITE: i32 = 2;

/// `MAP_SHARED`: writes are carried through to the backing object.
pub const MAP_SHARED: i32 = 1;

/// `MAP_PRIVATE`: writes go to a private copy.
pub const MAP_PRIVATE: i32 = 2;

/// Advice about the expected access pattern of a region.
#[derive(Clone, Copy, PartialEq, Eq, Structural, Debug)]
pub enum Advise {
    /// No special treatment.
    Normal,
    /// Expect sequential access.
    Sequential,
    /// Expect random access.
    Random,
    /// Expect access in the near future.
    WillNeed,
    /// Do not expect access in the near future.
    DontNeed,
}

/// The `madvise` code each advice maps to.
pub fn advise_code(adv: &Advise) -> (r: i32)
    ensures
        adv is Normal ==> r == 0,
        adv is Random ==> r == 1,
        adv is Sequential ==> r == 2,
        adv is WillNeed ==> r == 3,
        adv is DontNeed ==> r == 4,
{
    match adv {
        Advise::Normal => 0,
        Advise::Random => 1,
        Advise::Sequential => 2,
        Advise::WillNeed => 3,
        Advise::DontNeed => 4,
    }
}

/// The page fixup of a file offset: how many bytes the offset sits past
/// the page boundary below it.
pub fn adjust_page_offset(offset: usize, page_size: usize) -> (r: usize)
    requires
        page_size >= 1,
    ensures
        r as int == offset as int % page_size as int,
        r < page_size,
        r <= offset,
{
    let q = offset / page_size;
    proof {
        assert(offset as int - (offset as int / page_size as int) * page_size as int
            == offset as int % page_size as int && 0 <= offset as int % page_size as int
            && (offset as int % page_size as int) < page_size as int && (offset as int
            / page_size as int) * page_size as int <= offset as int) by (nonlinear_arith)
            requires
                page_size >= 1 && offset >= 0,
        ;
    }
    offset - q * page_size
}

/// Page fixup round-trip: moving an offset by any whole number of pages
/// does not change its fixup.
pub proof fn lemma_adjust_page_offset_periodic(o: int, page_size: int, k: int)
    requires
        o >= 0,
        page_size >= 1,
        k >= 0,
    ensures
        (o + page_size * k) % page_size == o % page_size,
{
    assert((o + page_size * k) % page_size == o % page_size) by (nonlinear_arith)
        requires
            o >= 0 && page_size >= 1 && k >= 0,
    ;
}

/// The access privilege of a mapping: it fixes the open flags, the
/// mapping protection and the sharing flag, consistently.
pub trait Privilege: Sized {
    /// Whether pages of the mapping may be written.
    spec fn spec_writable(&self) -> bool;

    /// Whether writes are carried through to the backing object.
    spec fn spec_is_shared(&self) -> bool;

    /// Whether pages of the mapping may be written.
    fn writable(&self) -> (r: bool)
        ensures
            r == self.spec_writable(),
    ;

    /// Whether writes are carried through to the backing object.
    fn is_shared(&self) -> (r: bool)
        ensures
            r == self.spec_is_shared(),
    ;

    /// The flags the backing object is opened with.
    fn open_flag(&self) -> (r: i32)
        ensures
            r == if self.spec_writable() {
                O_RDWR
            } else {
                O_RDONLY
            },
    ;

    /// The protection the mapping is created with.
    fn prot(&self) -> (r: i32)
        ensures
            r == if self.spec_writable() {
                PROT_READ | PROT_WRITE
            } else {
                PROT_READ
            },
    ;

    /// The sharing flag the mapping is created with.
    fn map_flag(&self) -> (r: i32)
        ensures
            r == if self.spec_is_shared() {
                MAP_SHARED
            } else {
                MAP_PRIVATE
            },
    ;
}

/// Read-only shared access.
#[derive(Clone, Copy, PartialEq, Eq, Structural, Debug)]
pub struct ReadOnly;

/// Read-write shared access.
#[derive(Clone, Copy, PartialEq, Eq, Structural, Debug)]
pub struct ReadWrite;

/// Read-only private access.
#[derive(Clone, Copy, PartialEq, Eq, Structural, Debug)]
pub struct ReadPrivate;

/// Writable private access: writes stay in this process's copy.
#[derive(Clone, Copy, PartialEq, Eq, Structural, Debug)]
pub struct CopyOnWrite;

impl Privilege for ReadOnly {
    open spec fn spec_writable(&self) -> bool {
        false
    }

    open spec fn spec_is_shared(&self) -> bool {
        true
    }

    fn writable(&self) -> (r: bool) {
        false
    }

    fn is_shared(&self) -> (r: bool) {
        true
    }

    fn open_flag(&self) -> (r: i32) {
        O_RDONLY
    }

    fn prot(&self) -> (r: i32) {
        PROT_READ
    }

    fn map_flag(&self) -> (r: i32) {
        MAP_SHARED
    }
}

impl Privilege for ReadWrite {
    open spec fn spec_writable(&self) -> bool {
        true
    }

    open spec fn spec_is_shared(&self) -> bool {
        true
    }

    fn writable(&self) -> (r: bool) {
        true
    }

    fn is_shared(&self) -> (r: bool) {
        true
    }

    fn open_flag(&self) -> (r: i32) {
        O_RDWR
    }

    fn prot(&self) -> (r: i32) {
        PROT_READ | PROT_WRITE
    }

    fn map_flag(&self) -> (r: i32) {
        MAP_SHARED
    }
}

impl Privilege for ReadPrivate {
    open spec fn spec_writable(&self) -> bool {
        false
    }

    open spec fn spec_is_shared(&self) -> bool {
        false
    }

    fn writable(&self) -> (r: bool) {
        false
    }

    fn is_shared(&self) -> (r: bool) {
        false
    }

    fn open_flag(&self) -> (r: i32) {
        O_RDONLY
    }

    fn prot(&self) -> (r: i32) {
        PROT_READ
    }

    fn map_flag(&self) -> (r: i32) {
        MAP_PRIVATE
    }
}

impl Privilege for CopyOnWrite {
    open spec fn spec_writable(&self) -> bool {
        true
    }

    open spec fn spec_is_shared(&self) -> bool {
        false
    }

    fn writable(&self) -> (r: bool) {
        true
    }

    fn is_shared(&self) -> (r: bool) {
        false
    }

    fn open_flag(&self) -> (r: i32) {
        O_RDWR
    }

    fn prot(&self) -> (r: i32) {
        PROT_READ | PROT_WRITE
    }

    fn map_flag(&self) -> (r: i32) {
        MAP_PRIVATE
    }
}

/// Unix permission bits for a created object.
#[derive(Clone, Copy, PartialEq, Eq, Structural, Debug)]
pub struct Perm(pub u32);

impl Perm {
    /// The default permission bits.
    pub fn default_mode() -> (r: Perm)
        ensures
            r.0 == 0o644,
    {
        Perm(0o644)
    }

    /// The raw mode bits.
    pub fn value(&self) -> (r: u32)
        ensures
            r == self.0,
    {
        self.0
    }
}

} // verus!
