//! The error kinds exposed at the filesystem boundary.

use vstd::prelude::*;

verus! {

/// Domain errors of the store and of the kernel-facing operations. The
/// transport layer maps each to the host's errno-style code.
#[derive(Debug, Clone, Copy, PartialEq, Eq, Structural)]
pub enum FsError {
    /// The path, or one of its ancestors, does not resolve.
    NotFound,
    /// A node of that name already exists in the parent directory.
    AlreadyExists,
    /// A file operation reached a directory.
    IsADirectory,
    /// A directory operation reached a file.
    NotADirectory,
    /// The operation is recognized but refused, e.g. a write to a read-only
    /// file.
    NotSupported,
    /// Reserved: the permission check itself denies the requester.
    PermissionDenied,
    /// The request is malformed.
    InvalidInput,
    /// The operation has no implementation.
    NotImplemented,
}

} // verus!
