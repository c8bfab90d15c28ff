//! Why a system call may be refused.

use vstd::prelude::*;

verus! {

/// Why a system call was refused. The task that made the call sees only the
/// result -1, whatever the reason.
#[derive(Clone, Copy, Debug, PartialEq, Eq, Structural)]
pub enum SyscallError {
    /// An address is not page-aligned, or the permission bits are malformed.
    InvalidArgument,
    /// The pages to be mapped overlap pages that are mapped already.
    RegionConflict,
    /// A page to be unmapped is not mapped.
    RegionNotFullyMapped,
    /// The heap cannot be moved as asked.
    BreakAdjustmentRejected,
}

} // verus!
