//! The POSIX backing stores: regions, builders, and the retry policy.
//!
//! The builders collect a name, a privilege, permission bits, a size
//! and an offset, and fix the flags each creation verb hands to the
//! OS.  The region type models what a successful mapping left behind:
//! a logical base, a logical size, the page fixup between the two, and
//! whether the range came from XSI `shmat` (which must be released
//! differently and supports neither flush nor shrink).

use vstd::prelude::*;

use crate::err::ErrCode;
use crate::err::ErrorKind;
use crate::err::FILE_EXISTS;
use crate::err::NO_SUCH_FILE_OR_DIRECTORY;
use crate::mapped_region::MAP_SHARED;
use crate::mapped_region::Advise;
use crate::mapped_region::CopyOnWrite;
use crate::mapped_region::MAP_PRIVATE;
use crate::mapped_region::O_RDONLY;
use crate::mapped_region::O_RDWR;
use crate::mapped_region::PROT_READ;
use crate::mapped_region::PROT_WRITE;
use crate::mapped_region::Perm;
use crate::mapped_region::ReadOnly;
use crate::mapped_region::ReadPrivate;
use crate::mapped_region::ReadWrite;
use crate::mapped_region::advise_code;
use crate::mapped_region::adjust_page_offset;

verus! {

/// What a caller must hand the OS to map a region, and what to do with
/// the result: map `map_len` bytes at file offset `file_offset`, then
/// advance the returned base by `page_offset` to reach the logical
/// start the user asked for.
#[derive(Clone, Copy, PartialEq, Eq, Structural, Debug)]
pub struct MapPlan {
    /// Bytes to map, page fixup included.
    pub map_len: usize,
    /// Page-aligned file offset handed to the OS.
    pub file_offset: usize,
    /// Bytes between the mapping's start and the logical start.
    pub page_offset: usize,
    /// Logical size of the region, fixup excluded.
    pub logical_size: usize,
}

/// The page arithmetic of region creation: the mapping starts at the
/// page boundary below the requested offset and covers the fixup; a
/// zero size means the whole backing object past the offset, which must
/// therefore be large enough.
pub fn map_plan(size: usize, offset: usize, handle_size: usize, page_size: usize) -> (r: Result<
    MapPlan,
    ErrorKind,
>)
    requires
        page_size >= 1,
    ensures
        ({
            let po = offset as int % page_size as int;
            if size == 0 {
                if handle_size < offset {
                    r == Err::<MapPlan, ErrorKind>(ErrorKind::PermissionDenied)
                } else if handle_size - (offset - po) + po > usize::MAX {
                    r == Err::<MapPlan, ErrorKind>(ErrorKind::InvalidArgument)
                } else {
                    r == Ok::<MapPlan, ErrorKind>(
                        (MapPlan {
                            map_len: (handle_size - (offset - po) + po) as usize,
                            file_offset: (offset - po) as usize,
                            page_offset: po as usize,
                            logical_size: (handle_size - (offset - po)) as usize,
                        }),
                    )
                }
            } else {
                if size + po > usize::MAX {
                    r == Err::<MapPlan, ErrorKind>(ErrorKind::InvalidArgument)
                } else {
                    r == Ok::<MapPlan, ErrorKind>(
                        (MapPlan {
                            map_len: (size + po) as usize,
                            file_offset: (offset - po) as usize,
                            page_offset: po as usize,
                            logical_size: size,
                        }),
                    )
                }
            }
        }),
{
    let po = adjust_page_offset(offset, page_size);
    if size == 0 {
        if handle_size < offset {
            return Err(ErrorKind::PermissionDenied);
        }
        let logical = handle_size - (offset - po);
        match logical.checked_add(po) {
            None => Err(ErrorKind::InvalidArgument),
            Some(map_len) => Ok(
                MapPlan { map_len, file_offset: offset - po, page_offset: po, logical_size: logical },
            ),
        }
    } else {
        match size.checked_add(po) {
            None => Err(ErrorKind::InvalidArgument),
            Some(map_len) => Ok(
                MapPlan { map_len, file_offset: offset - po, page_offset: po, logical_size: size },
            ),
        }
    }
}

/// A mapped region: the logical view of one successful mapping.
#[derive(Clone, Copy, PartialEq, Eq, Structural, Debug)]
pub struct MappedRegion {
    /// The logical base address.
    pub base: usize,
    /// The logical size in bytes.
    pub size: usize,
    /// Bytes between the mapping's start and the logical base.
    pub page_offset: usize,
    /// Whether the range came from XSI `shmat`.
    pub is_xsi: bool,
}

/// What a flush decision asks the caller to do.
#[derive(Clone, Copy, PartialEq, Eq, Structural, Debug)]
pub enum FlushAction {
    /// Nothing: the region kind does not support flushing.
    Skip,
    /// Call `msync` on `len` bytes at `addr`, synchronously or not.
    Sync { addr: usize, len: usize, async_flag: bool },
}

/// What a shrink decision asks the caller to do.
#[derive(Clone, Copy, PartialEq, Eq, Structural, Debug)]
pub enum ShrinkAction {
    /// Nothing: the region kind does not support shrinking.
    Skip,
    /// Unmap `len` bytes at `addr`.
    Unmap { addr: usize, len: usize },
}

impl MappedRegion {
    /// A region whose addresses stay inside the address space.
    pub open spec fn wf(&self) -> bool {
        &&& self.base >= self.page_offset
        &&& self.base + self.size <= usize::MAX
    }

    /// Assemble the logical region from what the OS returned for a
    /// plan: the base is advanced past the page fixup.
    pub fn from_map(raw_base: usize, plan: &MapPlan, is_xsi: bool) -> (r: MappedRegion)
        requires
            raw_base + plan.map_len <= usize::MAX,
            plan.page_offset + plan.logical_size <= plan.map_len,
        ensures
            r.wf(),
            r.base == raw_base + plan.page_offset,
            r.size == plan.logical_size,
            r.page_offset == plan.page_offset,
            r.is_xsi == is_xsi,
    {
        MappedRegion {
            base: raw_base + plan.page_offset,
            size: plan.logical_size,
            page_offset: plan.page_offset,
            is_xsi,
        }
    }

    /// The logical size, fixup excluded.
    pub fn size(&self) -> (r: usize)
        ensures
            r == self.size,
    {
        self.size
    }

    /// The logical base address.
    pub fn base(&self) -> (r: usize)
        ensures
            r == self.base,
    {
        self.base
    }

    /// Decide a flush of `bytes` bytes from `offset`: zero bytes means
    /// through the end of the region, an out-of-range request is
    /// rejected, and an XSI region is silently skipped.
    pub fn flush(&self, offset: usize, bytes: usize, async_flag: bool) -> (r: Result<
        FlushAction,
        ErrorKind,
    >)
        requires
            self.wf(),
        ensures
            self.is_xsi ==> r == Ok::<FlushAction, ErrorKind>(FlushAction::Skip),
            !self.is_xsi ==> ({
                if offset > self.size || offset + bytes > self.size {
                    r == Err::<FlushAction, ErrorKind>(ErrorKind::InvalidArgument)
                } else {
                    r == Ok::<FlushAction, ErrorKind>(
                        (FlushAction::Sync {
                            addr: (self.base + offset) as usize,
                            len: if bytes == 0 {
                                (self.size - offset) as usize
                            } else {
                                bytes
                            },
                            async_flag,
                        }),
                    )
                }
            }),
    {
        if self.is_xsi {
            return Ok(FlushAction::Skip);
        }
        if offset > self.size || bytes > self.size - offset {
            return Err(ErrorKind::InvalidArgument);
        }
        let len = if bytes == 0 {
            self.size - offset
        } else {
            bytes
        };
        Ok(FlushAction::Sync { addr: self.base + offset, len, async_flag })
    }

    /// Decide a shrink by `bytes` bytes from either end: the trimmed
    /// range must be page-aligned, nonempty and strictly inside the
    /// region; an XSI region is silently skipped.  On success the
    /// region's accounting is updated and the range to unmap returned.
    pub fn shrink_by(&mut self, bytes: usize, from_back: bool, page_size: usize) -> (r: Result<
        ShrinkAction,
        ErrorKind,
    >)
        requires
            old(self).wf(),
            page_size >= 1,
        ensures
            final(self).wf(),
            old(self).is_xsi ==> (r == Ok::<ShrinkAction, ErrorKind>(ShrinkAction::Skip)
                && *final(self) == *old(self)),
            !old(self).is_xsi ==> ({
                if bytes == 0 || bytes as int % page_size as int != 0 || bytes >= old(self).size {
                    &&& r == Err::<ShrinkAction, ErrorKind>(ErrorKind::InvalidArgument)
                    &&& *final(self) == *old(self)
                } else {
                    &&& r == Ok::<ShrinkAction, ErrorKind>(
                        (ShrinkAction::Unmap {
                            addr: if from_back {
                                (old(self).base + old(self).size - bytes) as usize
                            } else {
                                old(self).base
                            },
                            len: bytes,
                        }),
                    )
                    &&& final(self).size == old(self).size - bytes
                    &&& final(self).base == if from_back {
                        old(self).base
                    } else {
                        (old(self).base + bytes) as usize
                    }
                    &&& final(self).is_xsi == old(self).is_xsi
                }
            }),
    {
        if self.is_xsi {
            return Ok(ShrinkAction::Skip);
        }
        if bytes == 0 || adjust_page_offset(bytes, page_size) != 0 || bytes >= self.size {
            return Err(ErrorKind::InvalidArgument);
        }
        if from_back {
            let addr = self.base + (self.size - bytes);
            self.size = self.size - bytes;
            Ok(ShrinkAction::Unmap { addr, len: bytes })
        } else {
            let addr = self.base;
            self.base = self.base + bytes;
            self.size = self.size - bytes;
            Ok(ShrinkAction::Unmap { addr, len: bytes })
        }
    }

    /// Decide an advise call: the `madvise` code for an `mmap`-backed
    /// region, nothing for an XSI one.
    pub fn advise(&self, adv: &Advise) -> (r: Option<i32>)
        ensures
            self.is_xsi ==> r is None,
            !self.is_xsi ==> r == Some(({
                let a = *adv;
                if a is Normal {
                    0int
                } else if a is Random {
                    1int
                } else if a is Sequential {
                    2int
                } else if a is WillNeed {
                    3int
                } else {
                    4int
                }
            }) as i32),
    {
        if self.is_xsi {
            None
        } else {
            Some(advise_code(adv))
        }
    }
}

/// The two verbs an open-or-create loop alternates between.
#[derive(Clone, Copy, PartialEq, Eq, Structural, Debug)]
pub enum Verb {
    /// Try to create the object, failing if the name is taken.
    Create,
    /// Try to open the existing object.
    Open,
}

/// What the open-or-create loop decides after one OS attempt.
#[derive(Clone, Copy, PartialEq, Eq, Structural, Debug)]
pub enum Step {
    /// Make another attempt with the given verb.
    Retry(Verb),
    /// The attempt succeeded; the loop is over.
    Done,
    /// The attempt failed for a reason the loop does not recover from.
    Fail(ErrCode),
}

/// The decision `open_or_create_step` takes.
pub open spec fn spec_open_or_create_step(verb: Verb, outcome: Result<(), ErrCode>) -> Step {
    match outcome {
        Ok(_) => Step::Done,
        Err(ec) => match verb {
            Verb::Create => if ec.0 == FILE_EXISTS {
                Step::Retry(Verb::Open)
            } else {
                Step::Fail(ec)
            },
            Verb::Open => if ec.0 == NO_SUCH_FILE_OR_DIRECTORY {
                Step::Retry(Verb::Create)
            } else {
                Step::Fail(ec)
            },
        },
    }
}

/// One decision of the open-or-create loop: a create that lost to an
/// existing name falls through to open, an open that found nothing
/// retries the create, success ends the loop, and every other failure
/// surfaces.
pub fn open_or_create_step(verb: Verb, outcome: Result<(), ErrCode>) -> (r: Step)
    ensures
        r == spec_open_or_create_step(verb, outcome),
{
    match outcome {
        Ok(_) => Step::Done,
        Err(ec) => match verb {
            Verb::Create => {
                if ec.0 == FILE_EXISTS {
                    Step::Retry(Verb::Open)
                } else {
                    Step::Fail(ec)
                }
            },
            Verb::Open => {
                if ec.0 == NO_SUCH_FILE_OR_DIRECTORY {
                    Step::Retry(Verb::Create)
                } else {
                    Step::Fail(ec)
                }
            },
        },
    }
}

/// Create/open convergence, one process's half: the loop recovers from
/// exactly the two racy outcomes — a create that lost the race and an
/// open that saw the object vanish — and any successful attempt ends
/// the loop at once.  Racing processes therefore converge to one
/// winner of the create and openers of the same object.
pub proof fn lemma_open_or_create_recovery(verb: Verb, outcome: Result<(), ErrCode>)
    ensures
        outcome is Ok ==> spec_open_or_create_step(verb, outcome) == Step::Done,
        spec_open_or_create_step(Verb::Create, Err(ErrCode(FILE_EXISTS))) == Step::Retry(
            Verb::Open,
        ),
        spec_open_or_create_step(Verb::Open, Err(ErrCode(NO_SUCH_FILE_OR_DIRECTORY)))
            == Step::Retry(Verb::Create),
        forall|ec: ErrCode|
            ec.0 != FILE_EXISTS ==> #[trigger] spec_open_or_create_step(Verb::Create, Err(ec))
                == Step::Fail(ec),
        forall|ec: ErrCode|
            ec.0 != NO_SUCH_FILE_OR_DIRECTORY ==> #[trigger] spec_open_or_create_step(
                Verb::Open,
                Err(ec),
            ) == Step::Fail(ec),
{
}

/// The backing size a builder must secure: the requested size plus the
/// requested offset.
pub fn required_backing_size(size: usize, offset: usize) -> (r: Result<usize, ErrorKind>)
    ensures
        size + offset <= usize::MAX ==> r == Ok::<usize, ErrorKind>((size + offset) as usize),
        size + offset > usize::MAX ==> r == Err::<usize, ErrorKind>(ErrorKind::InvalidArgument),
{
    match size.checked_add(offset) {
        None => Err(ErrorKind::InvalidArgument),
        Some(v) => Ok(v),
    }
}

/// Whether an opened object must be grown to the required size.
pub fn needs_truncate(current: usize, required: usize) -> (r: bool)
    ensures
        r == (current < required),
{
    current < required
}

/// The restriction of `Privilege` to the two modes a shared-memory
/// object handle can be opened with.
#[allow(non_camel_case_types)]
pub trait ReadOnly_ReadWrite: Sized {
    /// Whether the handle may write.
    spec fn spec_handle_writable(&self) -> bool;

    /// The flags the object is opened with.
    fn oflags(&self) -> (r: i32)
        ensures
            r == if self.spec_handle_writable() {
                O_RDWR
            } else {
                O_RDONLY
            },
    ;
}

impl ReadOnly_ReadWrite for ReadOnly {
    open spec fn spec_handle_writable(&self) -> bool {
        false
    }

    fn oflags(&self) -> (r: i32) {
        O_RDONLY
    }
}

impl ReadOnly_ReadWrite for ReadWrite {
    open spec fn spec_handle_writable(&self) -> bool {
        true
    }

    fn oflags(&self) -> (r: i32) {
        O_RDWR
    }
}

/// A builder for a mapping backed by a regular file.
pub struct FileMapping<P> {
    /// The file's path.
    pub name: String,
    /// Permission bits for creation.
    pub perm: u32,
    /// Requested size in bytes; zero means the whole file.
    pub size: usize,
    /// Requested byte offset into the file.
    pub offset: usize,
    /// Flags the file is opened with.
    pub file_flag: i32,
    /// Sharing flag of the mapping.
    pub mmap_flag: i32,
    /// Protection of the mapping.
    pub mmap_prot: i32,
    /// The privilege the builder was configured with.
    pub mode: P,
}

impl<P> FileMapping<P> {
    /// Request a byte offset into the file.
    pub fn offset(self, offset: usize) -> (r: Self)
        ensures
            r.offset == offset,
            r.name == self.name,
            r.perm == self.perm,
            r.size == self.size,
            r.file_flag == self.file_flag,
            r.mmap_flag == self.mmap_flag,
            r.mmap_prot == self.mmap_prot,
    {
        FileMapping {
            name: self.name,
            perm: self.perm,
            size: self.size,
            offset,
            file_flag: self.file_flag,
            mmap_flag: self.mmap_flag,
            mmap_prot: self.mmap_prot,
            mode: self.mode,
        }
    }

    /// Request permission bits for creation.
    pub fn permission(self, perm: Perm) -> (r: Self)
        ensures
            r.perm == perm.0,
            r.name == self.name,
            r.size == self.size,
            r.offset == self.offset,
            r.file_flag == self.file_flag,
            r.mmap_flag == self.mmap_flag,
            r.mmap_prot == self.mmap_prot,
    {
        FileMapping {
            name: self.name,
            perm: perm.0,
            size: self.size,
            offset: self.offset,
            file_flag: self.file_flag,
            mmap_flag: self.mmap_flag,
            mmap_prot: self.mmap_prot,
            mode: self.mode,
        }
    }

    /// Request a size in bytes; zero means the whole file.
    pub fn size(self, size: usize) -> (r: Self)
        ensures
            r.size == size,
            r.name == self.name,
            r.perm == self.perm,
            r.offset == self.offset,
            r.file_flag == self.file_flag,
            r.mmap_flag == self.mmap_flag,
            r.mmap_prot == self.mmap_prot,
    {
        FileMapping {
            name: self.name,
            perm: self.perm,
            size,
            offset: self.offset,
            file_flag: self.file_flag,
            mmap_flag: self.mmap_flag,
            mmap_prot: self.mmap_prot,
            mode: self.mode,
        }
    }

    /// Switch to read-only shared access.
    pub fn read_only(self) -> (r: FileMapping<ReadOnly>)
        ensures
            r.file_flag == O_RDONLY,
            r.mmap_flag == MAP_SHARED,
            r.mmap_prot == PROT_READ,
            r.name == self.name,
            r.perm == self.perm,
            r.size == self.size,
            r.offset == self.offset,
    {
        FileMapping {
            name: self.name,
            perm: self.perm,
            size: self.size,
            offset: self.offset,
            file_flag: O_RDONLY,
            mmap_flag: MAP_SHARED,
            mmap_prot: PROT_READ,
            mode: ReadOnly,
        }
    }

    /// Switch to read-write shared access.
    pub fn read_write(self) -> (r: FileMapping<ReadWrite>)
        ensures
            r.file_flag == O_RDWR,
            r.mmap_flag == MAP_SHARED,
            r.mmap_prot == (PROT_READ | PROT_WRITE),
            r.name == self.name,
            r.perm == self.perm,
            r.size == self.size,
            r.offset == self.offset,
    {
        FileMapping {
            name: self.name,
            perm: self.perm,
            size: self.size,
            offset: self.offset,
            file_flag: O_RDWR,
            mmap_flag: MAP_SHARED,
            mmap_prot: PROT_READ | PROT_WRITE,
            mode: ReadWrite,
        }
    }

    /// Switch to read-only private access.
    pub fn read_private(self) -> (r: FileMapping<ReadPrivate>)
        ensures
            r.file_flag == O_RDONLY,
            r.mmap_flag == MAP_PRIVATE,
            r.mmap_prot == PROT_READ,
            r.name == self.name,
            r.perm == self.perm,
            r.size == self.size,
            r.offset == self.offset,
    {
        FileMapping {
            name: self.name,
            perm: self.perm,
            size: self.size,
            offset: self.offset,
            file_flag: O_RDONLY,
            mmap_flag: MAP_PRIVATE,
            mmap_prot: PROT_READ,
            mode: ReadPrivate,
        }
    }

    /// Switch to copy-on-write access.
    pub fn copy_on_write(self) -> (r: FileMapping<CopyOnWrite>)
        ensures
            r.file_flag == O_RDWR,
            r.mmap_flag == MAP_PRIVATE,
            r.mmap_prot == (PROT_READ | PROT_WRITE),
            r.name == self.name,
            r.perm == self.perm,
            r.size == self.size,
            r.offset == self.offset,
    {
        FileMapping {
            name: self.name,
            perm: self.perm,
            size: self.size,
            offset: self.offset,
            file_flag: O_RDWR,
            mmap_flag: MAP_PRIVATE,
            mmap_prot: PROT_READ | PROT_WRITE,
            mode: CopyOnWrite,
        }
    }
}

/// Start a file-mapping builder with read-write shared access and the
/// default permission bits.
pub fn file_mapping(name: &str) -> (r: FileMapping<ReadWrite>)
    ensures
        r.name@ == name@,
        r.perm == 0o644,
        r.size == 0,
        r.offset == 0,
        r.file_flag == O_RDWR,
        r.mmap_flag == MAP_SHARED,
        r.mmap_prot == (PROT_READ | PROT_WRITE),
{
    FileMapping {
        name: name.to_owned(),
        perm: 0o644,
        size: 0,
        offset: 0,
        file_flag: O_RDWR,
        mmap_flag: MAP_SHARED,
        mmap_prot: PROT_READ | PROT_WRITE,
        mode: ReadWrite,
    }
}

/// A builder for a mapping backed by a POSIX shared-memory object.
pub struct SharedMemory<P> {
    /// The object's name (beginning with `/` by POSIX convention).
    pub name: String,
    /// Permission bits for creation.
    pub perm: u32,
    /// Requested size in bytes; zero means the whole object.
    pub size: usize,
    /// Requested byte offset into the object.
    pub offset: usize,
    /// Flags the object is opened with.
    pub shm_flag: i32,
    /// Sharing flag of the mapping.
    pub mmap_flag: i32,
    /// Protection of the mapping.
    pub mmap_prot: i32,
    /// The privilege the builder was configured with.
    pub mode: P,
}

impl<P> SharedMemory<P> {
    /// Request a byte offset into the object.
    pub fn offset(self, offset: usize) -> (r: Self)
        ensures
            r.offset == offset,
            r.name == self.name,
            r.perm == self.perm,
            r.size == self.size,
            r.shm_flag == self.shm_flag,
            r.mmap_flag == self.mmap_flag,
            r.mmap_prot == self.mmap_prot,
    {
        SharedMemory {
            name: self.name,
            perm: self.perm,
            size: self.size,
            offset,
            shm_flag: self.shm_flag,
            mmap_flag: self.mmap_flag,
            mmap_prot: self.mmap_prot,
            mode: self.mode,
        }
    }

    /// Request permission bits for creation.
    pub fn permission(self, perm: Perm) -> (r: Self)
        ensures
            r.perm == perm.0,
            r.name == self.name,
            r.size == self.size,
            r.offset == self.offset,
            r.shm_flag == self.shm_flag,
            r.mmap_flag == self.mmap_flag,
            r.mmap_prot == self.mmap_prot,
    {
        SharedMemory {
            name: self.name,
            perm: perm.0,
            size: self.size,
            offset: self.offset,
            shm_flag: self.shm_flag,
            mmap_flag: self.mmap_flag,
            mmap_prot: self.mmap_prot,
            mode: self.mode,
        }
    }

    /// Request a size in bytes; zero means the whole object.
    pub fn size(self, size: usize) -> (r: Self)
        ensures
            r.size == size,
            r.name == self.name,
            r.perm == self.perm,
            r.offset == self.offset,
            r.shm_flag == self.shm_flag,
            r.mmap_flag == self.mmap_flag,
            r.mmap_prot == self.mmap_prot,
    {
        SharedMemory {
            name: self.name,
            perm: self.perm,
            size,
            offset: self.offset,
            shm_flag: self.shm_flag,
            mmap_flag: self.mmap_flag,
            mmap_prot: self.mmap_prot,
            mode: self.mode,
        }
    }

    /// Switch to read-only shared access.
    pub fn read_only(self) -> (r: SharedMemory<ReadOnly>)
        ensures
            r.shm_flag == O_RDONLY,
            r.mmap_flag == MAP_SHARED,
            r.mmap_prot == PROT_READ,
            r.name == self.name,
            r.perm == self.perm,
            r.size == self.size,
            r.offset == self.offset,
    {
        SharedMemory {
            name: self.name,
            perm: self.perm,
            size: self.size,
            offset: self.offset,
            shm_flag: O_RDONLY,
            mmap_flag: MAP_SHARED,
            mmap_prot: PROT_READ,
            mode: ReadOnly,
        }
    }

    /// Switch to read-write shared access.
    pub fn read_write(self) -> (r: SharedMemory<ReadWrite>)
        ensures
            r.shm_flag == O_RDWR,
            r.mmap_flag == MAP_SHARED,
            r.mmap_prot == (PROT_READ | PROT_WRITE),
            r.name == self.name,
            r.perm == self.perm,
            r.size == self.size,
            r.offset == self.offset,
    {
        SharedMemory {
            name: self.name,
            perm: self.perm,
            size: self.size,
            offset: self.offset,
            shm_flag: O_RDWR,
            mmap_flag: MAP_SHARED,
            mmap_prot: PROT_READ | PROT_WRITE,
            mode: ReadWrite,
        }
    }

    /// Switch to read-only private access.
    pub fn read_private(self) -> (r: SharedMemory<ReadPrivate>)
        ensures
            r.shm_flag == O_RDONLY,
            r.mmap_flag == MAP_PRIVATE,
            r.mmap_prot == PROT_READ,
            r.name == self.name,
            r.perm == self.perm,
            r.size == self.size,
            r.offset == self.offset,
    {
        SharedMemory {
            name: self.name,
            perm: self.perm,
            size: self.size,
            offset: self.offset,
            shm_flag: O_RDONLY,
            mmap_flag: MAP_PRIVATE,
            mmap_prot: PROT_READ,
            mode: ReadPrivate,
        }
    }

    /// Switch to copy-on-write access.
    pub fn copy_on_write(self) -> (r: SharedMemory<CopyOnWrite>)
        ensures
            r.shm_flag == O_RDWR,
            r.mmap_flag == MAP_PRIVATE,
            r.mmap_prot == (PROT_READ | PROT_WRITE),
            r.name == self.name,
            r.perm == self.perm,
            r.size == self.size,
            r.offset == self.offset,
    {
        SharedMemory {
            name: self.name,
            perm: self.perm,
            size: self.size,
            offset: self.offset,
            shm_flag: O_RDWR,
            mmap_flag: MAP_PRIVATE,
            mmap_prot: PROT_READ | PROT_WRITE,
            mode: CopyOnWrite,
        }
    }
}

/// Start a shared-memory builder with read-write shared access and the
/// default permission bits.
pub fn shared_memory(name: &str) -> (r: SharedMemory<ReadWrite>)
    ensures
        r.name@ == name@,
        r.perm == 0o644,
        r.size == 0,
        r.offset == 0,
        r.shm_flag == O_RDWR,
        r.mmap_flag == MAP_SHARED,
        r.mmap_prot == (PROT_READ | PROT_WRITE),
{
    SharedMemory {
        name: name.to_owned(),
        perm: 0o644,
        size: 0,
        offset: 0,
        shm_flag: O_RDWR,
        mmap_flag: MAP_SHARED,
        mmap_prot: PROT_READ | PROT_WRITE,
        mode: ReadWrite,
    }
}

/// A System V IPC key.
#[derive(Clone, Copy, PartialEq, Eq, Structural, Debug)]
pub struct XsiKey(pub i32);

impl XsiKey {
    /// The private key (`IPC_PRIVATE`): a fresh segment each time.
    pub fn private() -> (r: XsiKey)
        ensures
            r.0 == 0,
    {
        XsiKey(0)
    }

    /// Validate the id half of a `(path, id)` key pair: an id of zero
    /// is rejected before any OS call is made.
    pub fn check_id(id: u8) -> (r: Result<(), ErrorKind>)
        ensures
            id == 0 ==> r == Err::<(), ErrorKind>(ErrorKind::InvalidArgument),
            id != 0 ==> r == Ok::<(), ErrorKind>(()),
    {
        if id == 0 {
            Err(ErrorKind::InvalidArgument)
        } else {
            Ok(())
        }
    }

    /// Wrap a key value the OS computed.
    pub fn from_raw(key: i32) -> (r: XsiKey)
        ensures
            r.0 == key,
    {
        XsiKey(key)
    }
}

/// `SHM_RDONLY`: attach an XSI segment read-only.
pub const SHM_RDONLY: i32 = 0x1000;

/// A builder for a mapping backed by an XSI shared-memory segment.
pub struct XsiSharedMemory<P> {
    /// The segment's key.
    pub key: XsiKey,
    /// Requested size in bytes; zero means the existing segment's size.
    pub size: usize,
    /// Permission bits for creation.
    pub perm: u32,
    /// Flags the segment is attached with.
    pub shm_flag: i32,
    /// The privilege the builder was configured with.
    pub mode: P,
}

impl<P> XsiSharedMemory<P> {
    /// Switch to read-only access.
    pub fn read_only(self) -> (r: XsiSharedMemory<ReadOnly>)
        ensures
            r.shm_flag == SHM_RDONLY,
            r.key == self.key,
            r.size == self.size,
            r.perm == self.perm,
    {
        XsiSharedMemory {
            key: self.key,
            size: self.size,
            perm: self.perm,
            shm_flag: SHM_RDONLY,
            mode: ReadOnly,
        }
    }

    /// Switch to read-write access.
    pub fn read_write(self) -> (r: XsiSharedMemory<ReadWrite>)
        ensures
            r.shm_flag == 0,
            r.key == self.key,
            r.size == self.size,
            r.perm == self.perm,
    {
        XsiSharedMemory {
            key: self.key,
            size: self.size,
            perm: self.perm,
            shm_flag: 0,
            mode: ReadWrite,
        }
    }

    /// Request a size in bytes.
    pub fn size(self, size: usize) -> (r: Self)
        ensures
            r.size == size,
            r.key == self.key,
            r.perm == self.perm,
            r.shm_flag == self.shm_flag,
    {
        XsiSharedMemory {
            key: self.key,
            size,
            perm: self.perm,
            shm_flag: self.shm_flag,
            mode: self.mode,
        }
    }
}

/// Start an XSI shared-memory builder with read-write access and the
/// default permission bits.
pub fn xsi_shared_memory(key: XsiKey) -> (r: XsiSharedMemory<ReadWrite>)
    ensures
        r.key == key,
        r.size == 0,
        r.perm == 0o644,
        r.shm_flag == 0,
{
    XsiSharedMemory { key, size: 0, perm: 0o644, shm_flag: 0, mode: ReadWrite }
}

} // verus!
