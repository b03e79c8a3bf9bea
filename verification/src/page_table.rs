//! The three-level SV39 page table.
//!
//! A page-table entry is 64 bits: a physical page number above eight flag
//! bits.  An entry is a leaf when any of R/W/X is set.  A virtual page
//! number walks the tree by its three 9-bit indices, top level first.
//! Intermediate tables are created on `map` from freshly allocated frames
//! and left in place by `unmap`.  The table owns its intermediate frames;
//! leaf-mapped frames belong to whoever installed them.

use vstd::prelude::*;
use crate::addr::{
    lemma_vpn_indices_unique, lemma_vpn_reconstruct, vpn_index0, vpn_index1, vpn_index2,
    PhysPageNum, VirtPageNum,
};
use crate::config::{PPN_LIMIT, VPN_LIMIT};
use crate::frame::FrameAllocator;

verus! {

/// Valid: the entry may be used at all.
pub const V: u8 = 1;
/// Readable.
pub const R: u8 = 2;
/// Writable.
pub const W: u8 = 4;
/// Executable.
pub const X: u8 = 8;
/// Accessible in user mode.
pub const U: u8 = 16;
/// Global mapping.
pub const G: u8 = 32;
/// Accessed.
pub const A: u8 = 64;
/// Dirty.
pub const D: u8 = 128;

/// Permission bits of a memory segment: the same flag byte a leaf entry holds.
pub type SegFlags = u8;

/// The physical page number packed in an entry: the bits above the low ten.
pub open spec fn pte_ppn_spec(e: u64) -> int {
    e as int / 1024
}

/// The flag byte packed in an entry: its low bits (the two reserved bits
/// above the eight flags are never set here).
pub open spec fn pte_flags_spec(e: u64) -> u8 {
    (e as int % 1024) as u8
}

/// A well-formed entry: flags fit the low byte and the page number is in range.
pub open spec fn pte_wf(e: u64) -> bool {
    e as int % 1024 < 256 && pte_ppn_spec(e) < PPN_LIMIT
}

/// Setting V on a flag byte whose low bit is clear adds exactly one.
pub proof fn lemma_or_v_even(p: u8)
    requires
        p % 2 == 0,
    ensures
        (p | V) == p + 1,
        (p | V) & V != 0,
{
    assert(p % 2 == 0 ==> (p | 1u8) == p + 1) by (bit_vector);
    assert((p | 1u8) & 1u8 != 0) by (bit_vector);
    assert(V == 1u8);
}

/// Pack a page number and a flag byte into a 64-bit entry.
pub fn pte_new(ppn: PhysPageNum, flags: u8) -> (r: u64)
    requires
        ppn.0 < PPN_LIMIT,
    ensures
        pte_ppn_spec(r) == ppn.0,
        pte_flags_spec(r) == flags,
        pte_wf(r),
        flags & V != 0 ==> r != 0,
    {
        proof {
            let p = ppn.0 as int;
            let f = flags as int;
            assert((p * 1024 + f) / 1024 == p && (p * 1024 + f) % 1024 == f)
                by (nonlinear_arith)
                requires 0 <= p, 0 <= f < 1024;
            assert(flags & V != 0 ==> flags as int != 0) by (bit_vector);
        }
        ppn.0 * 1024 + flags as u64
    }

/// Read the page number back out of an entry.
pub fn pte_ppn(e: u64) -> (r: PhysPageNum)
    ensures
        r.0 == pte_ppn_spec(e),
{
    PhysPageNum(e / 1024)
}

/// Read the flag byte back out of an entry.
pub fn pte_flags(e: u64) -> (r: u8)
    requires
        pte_wf(e),
    ensures
        r == pte_flags_spec(e),
{
    (e % 1024) as u8
}

/// A leaf-level table: 512 entries, each zero or a well-formed leaf.
pub struct LeafTable {
    /// The frame this table occupies.
    pub ppn: u64,
    /// The 512 packed entries; zero means unmapped.
    pub entries: Vec<u64>,
}

impl LeafTable {
    pub open spec fn wf(self) -> bool {
        &&& self.ppn < PPN_LIMIT
        &&& self.entries.len() == 512
        &&& forall|j: int| 0 <= j < 512 && #[trigger] self.entries[j] != 0 ==> pte_wf(self.entries[j])
    }
}

/// A middle-level table: 512 slots, each empty or a leaf table.
pub struct MidTable {
    /// The frame this table occupies.
    pub ppn: u64,
    /// The 512 children; `None` means the entry is invalid.
    pub slots: Vec<Option<LeafTable>>,
}

impl MidTable {
    pub open spec fn wf(self) -> bool {
        &&& self.ppn < PPN_LIMIT
        &&& self.slots.len() == 512
        &&& forall|j: int| 0 <= j < 512 ==> match #[trigger] self.slots[j] {
            Some(leaf) => leaf.wf(),
            None => true,
        }
    }
}

/// The root page-table page plus the tree of intermediate tables it owns.
pub struct PageTable {
    /// The frame of the root table, the one `satp` points at.
    pub root_ppn: u64,
    /// The 512 top-level children; `None` means the entry is invalid.
    pub slots: Vec<Option<MidTable>>,
}

impl PageTable {
    pub open spec fn wf(self) -> bool {
        &&& self.root_ppn < PPN_LIMIT
        &&& self.slots.len() == 512
        &&& forall|j: int| 0 <= j < 512 ==> match #[trigger] self.slots[j] {
            Some(mid) => mid.wf(),
            None => true,
        }
    }

    /// The packed entry the hardware walk would find for `vpn`; zero when
    /// any level of the walk is invalid.
    pub open spec fn entry_at(self, vpn: int) -> u64 {
        match self.slots[vpn_index2(vpn)] {
            Some(mid) => match mid.slots[vpn_index1(vpn)] {
                Some(leaf) => leaf.entries[vpn_index0(vpn)],
                None => 0,
            },
            None => 0,
        }
    }

    /// How many intermediate tables a `map` of `vpn` would have to
    /// create: two when the top-level slot is empty, one when only the
    /// leaf table is missing, none when the walk already reaches a leaf
    /// table.
    pub open spec fn tables_missing(self, vpn: int) -> int {
        match self.slots[vpn_index2(vpn)] {
            Some(mid) => match mid.slots[vpn_index1(vpn)] {
                Some(_leaf) => 0int,
                None => 1int,
            },
            None => 2int,
        }
    }

    /// What translation the table defines for `vpn`.
    pub open spec fn translate_spec(self, vpn: int) -> Option<(int, u8)> {
        if self.entry_at(vpn) != 0 {
            Some((pte_ppn_spec(self.entry_at(vpn)), pte_flags_spec(self.entry_at(vpn))))
        } else {
            None
        }
    }

    /// A fresh table with no mappings, its root page taken from `fa`.
    pub fn new(fa: &mut FrameAllocator) -> (r: PageTable)
        requires
            old(fa).wf(),
            old(fa).free_count() >= 1,
        ensures
            final(fa).wf(),
            final(fa).start == old(fa).start,
            final(fa).end == old(fa).end,
            final(fa).free_count() == old(fa).free_count() - 1,
            final(fa).free_set() =~= old(fa).free_set().remove(r.root_ppn as int),
            r.wf(),
            forall|v: int| 0 <= v < VPN_LIMIT ==> r.translate_spec(v) is None,
            old(fa).free_set().contains(r.root_ppn as int),
    {
        let root = match fa.allocate() {
            Some(p) => p,
            None => {
                proof {
                    assert(false);
                }
                PhysPageNum(0)
            },
        };
        let r = PageTable { root_ppn: root.0, slots: none_mid_slots() };
        proof {
            assert forall|v: int| 0 <= v < VPN_LIMIT implies r.entry_at(v) == 0 by {
                lemma_vpn_reconstruct(v);
            };
        }
        r
    }

    /// The value for the `satp` register: SV39 mode above the root page number.
    pub fn satp_token(&self) -> (r: u64)
        requires
            self.root_ppn < PPN_LIMIT,
        ensures
            r == 0x8000000000000000u64 + self.root_ppn,
            r as int % 0x100000000000 == self.root_ppn as int
                || self.root_ppn >= PPN_LIMIT,
    {
        proof {
            let root = self.root_ppn;
            assert(root < 0x100000000000 ==>
                (0x8000000000000000u64 + root) as int % 0x100000000000 == root as int)
                by (bit_vector);
        }
        0x8000000000000000u64 + self.root_ppn
    }

    /// Install the leaf mapping `vpn -> (ppn, flags)`, creating missing
    /// intermediate tables from `fa`.  The entry must not already be
    /// present, the flags must mark a valid leaf, and exhausting the frame
    /// allocator mid-walk is a kernel-fatal condition excluded here.
    pub fn map(&mut self, vpn: VirtPageNum, ppn: PhysPageNum, flags: SegFlags, fa: &mut FrameAllocator)
        requires
            old(self).wf(),
            old(fa).wf(),
            vpn.0 < VPN_LIMIT,
            ppn.0 < PPN_LIMIT,
            flags & V != 0,
            old(self).translate_spec(vpn.0 as int) is None,
            old(fa).free_count() >= 2,
        ensures
            final(self).wf(),
            final(fa).wf(),
            final(self).root_ppn == old(self).root_ppn,
            final(fa).start == old(fa).start,
            final(fa).end == old(fa).end,
            final(fa).free_count() >= old(fa).free_count() - 2,
            final(fa).free_count() == old(fa).free_count()
                - old(self).tables_missing(vpn.0 as int),
            final(fa).free_set().subset_of(old(fa).free_set()),
            final(self).translate_spec(vpn.0 as int) == Some((ppn.0 as int, flags)),
            forall|v: int| 0 <= v < VPN_LIMIT && v != vpn.0 as int
                ==> final(self).entry_at(v) == old(self).entry_at(v),
    {
        proof {
            lemma_vpn_reconstruct(vpn.0 as int);
        }
        let idx = vpn.indices();
        let i2 = idx[0] as usize;
        let i1 = idx[1] as usize;
        let i0 = idx[2] as usize;
        let ghost fa0 = *fa;
        let ghost slots0 = self.slots@;
        let mut mid: MidTable = match self.slots.remove(i2) {
            Some(m) => m,
            None => {
                let f = match fa.allocate() {
                    Some(p) => p,
                    None => {
                        proof {
                            assert(false);
                        }
                        PhysPageNum(0)
                    },
                };
                MidTable { ppn: f.0, slots: none_leaf_slots() }
            },
        };
        let ghost mid_slots0 = mid.slots@;
        let mut leaf: LeafTable = match mid.slots.remove(i1) {
            Some(l) => l,
            None => {
                let f = match fa.allocate() {
                    Some(p) => p,
                    None => {
                        proof {
                            assert(false);
                        }
                        PhysPageNum(0)
                    },
                };
                LeafTable { ppn: f.0, entries: zero_entries() }
            },
        };
        let e = pte_new(ppn, flags);
        let ghost entries0 = leaf.entries@;
        leaf.entries.set(i0, e);
        let ghost leaf_g = leaf;
        mid.slots.insert(i1, Some(leaf));
        let ghost mid_g = mid;
        self.slots.insert(i2, Some(mid));
        proof {
            let vi = vpn.0 as int;
            let post = *self;
            assert(leaf_g.entries@ =~= entries0.update(i0 as int, e));
            assert(mid_g.slots@ =~= mid_slots0.update(i1 as int, Some(leaf_g)));
            assert(post.slots@ =~= slots0.update(i2 as int, Some(mid_g)));
            assert(post.entry_at(vi) == e);
            assert forall|v: int| 0 <= v < VPN_LIMIT && v != vi
                implies post.entry_at(v) == old(self).entry_at(v) by {
                lemma_vpn_reconstruct(v);
                if vpn_index2(v) != i2 as int {
                    assert(post.slots[vpn_index2(v)] == slots0[vpn_index2(v)]);
                } else if vpn_index1(v) != i1 as int {
                    assert(mid_g.slots[vpn_index1(v)] == mid_slots0[vpn_index1(v)]);
                } else if vpn_index0(v) != i0 as int {
                    assert(leaf_g.entries[vpn_index0(v)] == entries0[vpn_index0(v)]);
                } else {
                    lemma_vpn_indices_unique(v, vi);
                    assert(false);
                }
            };
        }
    }

    /// Remove the leaf mapping for `vpn`; unmapping an absent entry is a
    /// contract violation.  Intermediate tables stay in place.
    pub fn unmap(&mut self, vpn: VirtPageNum)
        requires
            old(self).wf(),
            vpn.0 < VPN_LIMIT,
            old(self).translate_spec(vpn.0 as int) is Some,
        ensures
            final(self).wf(),
            final(self).root_ppn == old(self).root_ppn,
            final(self).translate_spec(vpn.0 as int) is None,
            forall|v: int| 0 <= v < VPN_LIMIT && v != vpn.0 as int
                ==> final(self).entry_at(v) == old(self).entry_at(v),
    {
        proof {
            lemma_vpn_reconstruct(vpn.0 as int);
        }
        let idx = vpn.indices();
        let i2 = idx[0] as usize;
        let i1 = idx[1] as usize;
        let i0 = idx[2] as usize;
        let ghost slots0 = self.slots@;
        let mut mid: MidTable = match self.slots.remove(i2) {
            Some(m) => m,
            None => {
                proof {
                    assert(false);
                }
                MidTable { ppn: 0, slots: none_leaf_slots() }
            },
        };
        let ghost mid_slots0 = mid.slots@;
        let mut leaf: LeafTable = match mid.slots.remove(i1) {
            Some(l) => l,
            None => {
                proof {
                    assert(false);
                }
                LeafTable { ppn: 0, entries: zero_entries() }
            },
        };
        let ghost entries0 = leaf.entries@;
        leaf.entries.set(i0, 0);
        let ghost leaf_g = leaf;
        mid.slots.insert(i1, Some(leaf));
        let ghost mid_g = mid;
        self.slots.insert(i2, Some(mid));
        proof {
            let vi = vpn.0 as int;
            let post = *self;
            assert(leaf_g.entries@ =~= entries0.update(i0 as int, 0u64));
            assert(mid_g.slots@ =~= mid_slots0.update(i1 as int, Some(leaf_g)));
            assert(post.slots@ =~= slots0.update(i2 as int, Some(mid_g)));
            assert(post.entry_at(vi) == 0);
            assert forall|v: int| 0 <= v < VPN_LIMIT && v != vi
                implies post.entry_at(v) == old(self).entry_at(v) by {
                lemma_vpn_reconstruct(v);
                if vpn_index2(v) != i2 as int {
                    assert(post.slots[vpn_index2(v)] == slots0[vpn_index2(v)]);
                } else if vpn_index1(v) != i1 as int {
                    assert(mid_g.slots[vpn_index1(v)] == mid_slots0[vpn_index1(v)]);
                } else if vpn_index0(v) != i0 as int {
                    assert(leaf_g.entries[vpn_index0(v)] == entries0[vpn_index0(v)]);
                } else {
                    lemma_vpn_indices_unique(v, vi);
                    assert(false);
                }
            };
        }
    }

    /// Walk the table for `vpn`: the mapped page number and flags, or
    /// `None` when the walk hits an invalid entry.
    pub fn translate(&self, vpn: VirtPageNum) -> (r: Option<(PhysPageNum, SegFlags)>)
        requires
            self.wf(),
            vpn.0 < VPN_LIMIT,
        ensures
            match r {
                Some((p, f)) => self.translate_spec(vpn.0 as int) == Some((p.0 as int, f))
                    && p.0 < PPN_LIMIT,
                None => self.translate_spec(vpn.0 as int) is None,
            },
    {
        let idx = vpn.indices();
        let i2 = idx[0] as usize;
        let i1 = idx[1] as usize;
        let i0 = idx[2] as usize;
        match &self.slots[i2] {
            None => None,
            Some(mid) => match &mid.slots[i1] {
                None => None,
                Some(leaf) => {
                    let e = leaf.entries[i0];
                    if e == 0 {
                        None
                    } else {
                        Some((pte_ppn(e), pte_flags(e)))
                    }
                },
            },
        }
    }
}

/// 512 empty top-level slots.
fn none_mid_slots() -> (r: Vec<Option<MidTable>>)
    ensures
        r.len() == 512,
        forall|j: int| 0 <= j < 512 ==> r@[j] is None,
{
    let mut v: Vec<Option<MidTable>> = Vec::new();
    let mut i: usize = 0;
    while i < 512
        invariant
            i == v.len(),
            i <= 512,
            forall|j: int| 0 <= j < i ==> v@[j] is None,
        decreases 512 - i,
    {
        v.push(None);
        i = i + 1;
    }
    v
}

/// 512 empty middle-level slots.
fn none_leaf_slots() -> (r: Vec<Option<LeafTable>>)
    ensures
        r.len() == 512,
        forall|j: int| 0 <= j < 512 ==> r@[j] is None,
{
    let mut v: Vec<Option<LeafTable>> = Vec::new();
    let mut i: usize = 0;
    while i < 512
        invariant
            i == v.len(),
            i <= 512,
            forall|j: int| 0 <= j < i ==> v@[j] is None,
        decreases 512 - i,
    {
        v.push(None);
        i = i + 1;
    }
    v
}

/// 512 zero entries: a freshly allocated table page is zeroed by its creator.
fn zero_entries() -> (r: Vec<u64>)
    ensures
        r.len() == 512,
        forall|j: int| 0 <= j < 512 ==> r@[j] == 0,
{
    let mut v: Vec<u64> = Vec::new();
    let mut i: usize = 0;
    while i < 512
        invariant
            i == v.len(),
            i <= 512,
            forall|j: int| 0 <= j < i ==> v@[j] == 0,
        decreases 512 - i,
    {
        v.push(0);
        i = i + 1;
    }
    v
}

} // verus!
