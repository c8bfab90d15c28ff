//! Constants shared by the whole kernel core.

use vstd::prelude::*;

verus! {

/// Size of one page of virtual or physical memory, in bytes.
pub const PAGE_SIZE: usize = 4096;

/// Number of address bits that select a byte inside a page.
pub const PAGE_SIZE_BITS: usize = 12;

/// Number of distinct system-call ids that a task's accounting tracks.
pub const MAX_SYSCALL_NUM: usize = 500;

/// The stride a task of priority one is charged for one time slice.
pub const BIG_STRIDE: u64 = 0x10_0000;

} // verus!
