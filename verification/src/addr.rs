//! Physical and virtual addresses and page numbers.
//!
//! An address is a byte address; a page number is the address divided by
//! the page size.  A virtual page number decomposes into three 9-bit
//! indices, one per page-table level, top level first.

use vstd::prelude::*;
use crate::config::{PAGE_SIZE, PPN_LIMIT, VPN_LIMIT};

verus! {

/// A physical byte address.
#[derive(Copy, Clone, Debug, PartialEq, Eq, Structural)]
pub struct PhysAddr(pub u64);

/// A virtual byte address.
#[derive(Copy, Clone, Debug, PartialEq, Eq, Structural)]
pub struct VirtAddr(pub u64);

/// A physical page number: physical address divided by the page size.
#[derive(Copy, Clone, Debug, PartialEq, Eq, Structural)]
pub struct PhysPageNum(pub u64);

/// A virtual page number: virtual address divided by the page size.
#[derive(Copy, Clone, Debug, PartialEq, Eq, Structural)]
pub struct VirtPageNum(pub u64);

impl PhysAddr {
    /// The page this address lies in.
    pub fn ppn(&self) -> (r: PhysPageNum)
        ensures
            r.0 == self.0 / PAGE_SIZE,
    {
        PhysPageNum(self.0 / PAGE_SIZE)
    }

    /// The offset of this address within its page.
    pub fn page_offset(&self) -> (r: u64)
        ensures
            r == self.0 % PAGE_SIZE,
    {
        self.0 % PAGE_SIZE
    }

    /// Whether this address is the first byte of a page.
    pub fn aligned(&self) -> (r: bool)
        ensures
            r == (self.0 % PAGE_SIZE == 0),
    {
        self.0 % PAGE_SIZE == 0
    }
}

impl VirtAddr {
    /// The page this address lies in.
    pub fn vpn(&self) -> (r: VirtPageNum)
        ensures
            r.0 == self.0 / PAGE_SIZE,
    {
        VirtPageNum(self.0 / PAGE_SIZE)
    }

    /// The offset of this address within its page.
    pub fn page_offset(&self) -> (r: u64)
        ensures
            r == self.0 % PAGE_SIZE,
    {
        self.0 % PAGE_SIZE
    }

    /// Whether this address is the first byte of a page.
    pub fn aligned(&self) -> (r: bool)
        ensures
            r == (self.0 % PAGE_SIZE == 0),
    {
        self.0 % PAGE_SIZE == 0
    }
}

impl PhysPageNum {
    /// The first byte address of this page.
    pub fn addr(&self) -> (r: PhysAddr)
        requires
            self.0 < PPN_LIMIT,
        ensures
            r.0 == self.0 * PAGE_SIZE,
    {
        PhysAddr(self.0 * PAGE_SIZE)
    }
}

/// The top-level page-table index of a virtual page number: bits 18..27.
pub open spec fn vpn_index2(v: int) -> int {
    v / 262144
}

/// The middle-level page-table index of a virtual page number: bits 9..18.
pub open spec fn vpn_index1(v: int) -> int {
    (v / 512) % 512
}

/// The leaf-level page-table index of a virtual page number: bits 0..9.
pub open spec fn vpn_index0(v: int) -> int {
    v % 512
}

impl VirtPageNum {
    /// The top-level page-table index of this page.
    pub open spec fn index2(self) -> int {
        vpn_index2(self.0 as int)
    }

    /// The middle-level page-table index of this page.
    pub open spec fn index1(self) -> int {
        vpn_index1(self.0 as int)
    }

    /// The leaf-level page-table index of this page.
    pub open spec fn index0(self) -> int {
        vpn_index0(self.0 as int)
    }

    /// The three 9-bit page-table indices of this page, top level first.
    pub fn indices(&self) -> (r: [u64; 3])
        requires
            self.0 < VPN_LIMIT,
        ensures
            r[0] == self.index2(),
            r[1] == self.index1(),
            r[2] == self.index0(),
            r[0] < 512 && r[1] < 512 && r[2] < 512,
    {
        proof {
            lemma_vpn_reconstruct(self.0 as int);
        }
        [self.0 / (512 * 512), (self.0 / 512) % 512, self.0 % 512]
    }
}

/// A virtual page number is exactly determined by its three indices.
pub proof fn lemma_vpn_indices_unique(a: int, b: int)
    requires
        0 <= a < VPN_LIMIT,
        0 <= b < VPN_LIMIT,
        vpn_index2(a) == vpn_index2(b),
        vpn_index1(a) == vpn_index1(b),
        vpn_index0(a) == vpn_index0(b),
    ensures
        a == b,
{
    lemma_vpn_reconstruct(a);
    lemma_vpn_reconstruct(b);
}

/// A virtual page number is the weighted sum of its three indices.
pub proof fn lemma_vpn_reconstruct(v: int)
    requires
        0 <= v < VPN_LIMIT,
    ensures
        v == vpn_index2(v) * 262144 + vpn_index1(v) * 512 + vpn_index0(v),
        0 <= vpn_index2(v) < 512,
        0 <= vpn_index1(v) < 512,
        0 <= vpn_index0(v) < 512,
{
    assert(v == (v / 512) * 512 + v % 512) by (nonlinear_arith)
        requires v >= 0;
    assert(v / 512 == ((v / 512) / 512) * 512 + (v / 512) % 512) by (nonlinear_arith)
        requires v >= 0;
    assert(v / 512 / 512 == v / 262144) by (nonlinear_arith)
        requires v >= 0;
    assert(v == (v / 262144) * 262144 + ((v / 512) % 512) * 512 + v % 512)
        by (nonlinear_arith)
        requires v >= 0;
    assert(0 <= v / 262144 < 512) by (nonlinear_arith)
        requires 0 <= v < 0x8000000;
}

} // verus!
