//! Virtual addresses, virtual page numbers and the arithmetic between them.

use vstd::prelude::*;
use crate::config::PAGE_SIZE;

verus! {

/// A byte address in a task's virtual address space.
#[derive(Clone, Copy, Debug, PartialEq, Eq, Structural)]
pub struct VirtAddr(pub usize);

/// The number of a page in a task's virtual address space.
#[derive(Clone, Copy, Debug, PartialEq, Eq, Structural)]
pub struct VirtPageNum(pub usize);

/// One past the largest virtual page number: no area ends beyond it.
pub open spec fn vpn_limit() -> int {
    usize::MAX as int / PAGE_SIZE as int + 1
}

/// Number of pages needed to hold `len` bytes.
pub open spec fn pages_for(len: int) -> int {
    if len % (PAGE_SIZE as int) == 0 {
        len / (PAGE_SIZE as int)
    } else {
        len / (PAGE_SIZE as int) + 1
    }
}

/// Computes `pages_for(len)`.
pub fn page_count(len: usize) -> (n: usize)
    ensures
        n == pages_for(len as int),
        n <= vpn_limit(),
{
    if len % PAGE_SIZE == 0 {
        len / PAGE_SIZE
    } else {
        len / PAGE_SIZE + 1
    }
}

impl VirtAddr {
    /// Offset of the address inside its page.
    pub open spec fn spec_page_offset(self) -> int {
        self.0 as int % PAGE_SIZE as int
    }

    /// Number of the page that holds the address.
    pub open spec fn spec_floor(self) -> int {
        self.0 as int / PAGE_SIZE as int
    }

    /// Number of the first page that starts at or after the address.
    pub open spec fn spec_ceil(self) -> int {
        pages_for(self.0 as int)
    }

    /// Offset of the address inside its page.
    pub fn page_offset(&self) -> (off: usize)
        ensures
            off == self.spec_page_offset(),
            off < PAGE_SIZE,
    {
        self.0 % PAGE_SIZE
    }

    /// The page that holds the address.
    pub fn floor(&self) -> (vpn: VirtPageNum)
        ensures
            vpn.0 == self.spec_floor(),
            vpn.0 < vpn_limit(),
    {
        VirtPageNum(self.0 / PAGE_SIZE)
    }

    /// The first page that starts at or after the address.
    pub fn ceil(&self) -> (vpn: VirtPageNum)
        ensures
            vpn.0 == self.spec_ceil(),
            vpn.0 <= vpn_limit(),
    {
        VirtPageNum(page_count(self.0))
    }

    /// Whether the address is the first byte of a page.
    pub fn aligned(&self) -> (b: bool)
        ensures
            b == (self.spec_page_offset() == 0),
    {
        self.0 % PAGE_SIZE == 0
    }
}

impl VirtPageNum {
    /// Address of the first byte of the page, or `None` where no `usize` holds it.
    pub fn base(&self) -> (va: Option<VirtAddr>)
        ensures
            va is Some <==> self.0 < vpn_limit(),
            va matches Some(a) ==> a.0 == self.0 * PAGE_SIZE,
    {
        if self.0 <= usize::MAX / PAGE_SIZE {
            Some(VirtAddr(self.0 * PAGE_SIZE))
        } else {
            None
        }
    }
}

} // verus!
