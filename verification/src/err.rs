//! Error codes and error kinds.
//!
//! `ErrCode` carries a raw POSIX `errno` value as reported by the operating
//! system; the named constants cover the codes this library reacts to.
//! `ErrorKind` is the typed error surface of the library itself: every
//! operation either succeeds or reports exactly one of these kinds.

use vstd::prelude::*;

verus! {

/// A raw OS error code (`errno` value).
#[derive(Clone, Copy, PartialEq, Eq, Structural, Debug)]
pub struct ErrCode(pub i32);

/// The `errno` value that means no error.
pub const SUCCESS: i32 = 0;

/// `EEXIST`: the name is already taken.
pub const FILE_EXISTS: i32 = 17;

/// `ENOENT`: no object of that name exists.
pub const NO_SUCH_FILE_OR_DIRECTORY: i32 = 2;

/// `EACCES`: the OS refused access.
pub const PERMISSION_DENIED: i32 = 13;

/// `EINVAL`: an argument was rejected.
pub const INVALID_ARGUMENT: i32 = 22;

/// The typed errors of the library.
#[derive(Clone, Copy, PartialEq, Eq, Structural, Debug)]
pub enum ErrorKind {
    /// A creation verb found the name taken.
    AlreadyExists,
    /// An open verb found no object, or a directory lookup missed.
    NotFound,
    /// The OS refused access, or a logical offset exceeds the backing size.
    PermissionDenied,
    /// A size, offset, key id or alignment was rejected.
    InvalidArgument,
    /// The allocator found no fitting free block.
    OutOfMemory,
    /// A typed lookup hit a name stored under a different type tag.
    TypeMismatch,
    /// Any other OS failure, with its native code preserved.
    Io(i32),
}

impl ErrCode {
    /// The error kind a raw OS code maps to.
    pub open spec fn spec_kind(self) -> ErrorKind {
        if self.0 == FILE_EXISTS {
            ErrorKind::AlreadyExists
        } else if self.0 == NO_SUCH_FILE_OR_DIRECTORY {
            ErrorKind::NotFound
        } else if self.0 == PERMISSION_DENIED {
            ErrorKind::PermissionDenied
        } else if self.0 == INVALID_ARGUMENT {
            ErrorKind::InvalidArgument
        } else {
            ErrorKind::Io(self.0)
        }
    }

    /// Classify a raw OS code into the library's error kinds.
    pub fn kind(self) -> (r: ErrorKind)
        ensures
            r == self.spec_kind(),
    {
        if self.0 == FILE_EXISTS {
            ErrorKind::AlreadyExists
        } else if self.0 == NO_SUCH_FILE_OR_DIRECTORY {
            ErrorKind::NotFound
        } else if self.0 == PERMISSION_DENIED {
            ErrorKind::PermissionDenied
        } else if self.0 == INVALID_ARGUMENT {
            ErrorKind::InvalidArgument
        } else {
            ErrorKind::Io(self.0)
        }
    }
}

} // verus!
