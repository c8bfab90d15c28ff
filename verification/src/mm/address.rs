//! Virtual addresses and virtual page numbers.

use vstd::prelude::*;
use crate::config::{PAGE_SIZE, PAGE_SIZE_BITS};

verus! {

/// A virtual address of a task, counted in bytes.
#[derive(Clone, Copy, Debug, PartialEq, Eq, Structural)]
pub struct VirtAddr(pub usize);

/// The number of a virtual page: page `n` holds the addresses from
/// `n * PAGE_SIZE` up to, but not including, `(n + 1) * PAGE_SIZE`.
#[derive(Clone, Copy, Debug, PartialEq, Eq, Structural)]
pub struct VirtPageNum(pub usize);

/// The number of the page that holds address `addr`.
pub open spec fn page_floor(addr: usize) -> usize {
    addr / PAGE_SIZE
}

/// The number of the first page that starts at or after address `addr`.
pub open spec fn page_ceil(addr: usize) -> usize {
    if addr % PAGE_SIZE == 0 {
        addr / PAGE_SIZE
    } else {
        (addr / PAGE_SIZE + 1) as usize
    }
}

impl VirtAddr {
    /// The page that holds this address.
    pub fn floor(self) -> (vpn: VirtPageNum)
        ensures
            vpn.0 == page_floor(self.0),
    {
        VirtPageNum(self.0 / PAGE_SIZE)
    }

    /// The first page that starts at or after this address.
    pub fn ceil(self) -> (vpn: VirtPageNum)
        ensures
            vpn.0 == page_ceil(self.0),
    {
        let whole: usize = self.0 / PAGE_SIZE;
        if self.0 % PAGE_SIZE == 0 {
            VirtPageNum(whole)
        } else {
            VirtPageNum(whole + 1)
        }
    }

    /// Whether this address is the first of its page: shifting the number
    /// of its page back up gives the address again.
    pub fn aligned(self) -> (yes: bool)
        ensures
            yes == (self.0 % PAGE_SIZE == 0),
    {
        let addr: usize = self.0;
        let page: usize = self.floor().0;
        assert(((addr / 4096) << 12) == addr <==> addr % 4096 == 0) by (bit_vector);
        page << PAGE_SIZE_BITS == addr
    }
}

} // verus!
