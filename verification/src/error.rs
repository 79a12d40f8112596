//! Errors of the kernel.

use vstd::prelude::*;

verus! {

/// Why a kernel operation failed.
#[derive(Clone, Copy, Debug, PartialEq, Eq, Structural)]
pub enum OsError {
    /// A user pointer is null, points into the kernel, or is not mapped.
    BadPtr,
    /// A C string from user space is not valid UTF-8.
    CstrFormatErr,
    /// A string or an argument list does not fit its limit.
    ArgumentTooLong,
    /// The file system refused the operation.
    FileSystem,
}

} // verus!
