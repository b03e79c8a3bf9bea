//! An address space: one page table plus the segments it owns.
//!
//! Invariants: segment ranges are pairwise disjoint; every page of every
//! segment is mapped in the page table to the frame the segment recorded,
//! with the segment's flags.  Identity mappings (the kernel image) go
//! straight into the page table and own no segment.

use vstd::prelude::*;
use crate::addr::{vpn_index1, vpn_index2, PhysAddr, PhysPageNum, VirtAddr, VirtPageNum};
use crate::config::{
    PAGE_SIZE, PPN_LIMIT, TRAMPOLINE, TRAP_CONTEXT_VPN, USER_STACK_PAGES, VPN_LIMIT,
};
use crate::elf::{
    elf_entry, elf_max_end_upto, elf_pages_upto, elf_phnum, elf_wf, lemma_max_end_bound,
    parse_elf, ph_end_vpn, ph_filesz, ph_flags, ph_is_load, ph_memsz, ph_offset, ph_start_vpn,
    ph_vaddr, MAX_USER_VA,
};
use crate::frame::FrameAllocator;
use crate::page_table::{lemma_or_v_even, PageTable, SegFlags, R, U, V, W, X};
use crate::segment::MemorySegment;
use crate::KernError;

verus! {

/// The virtual page of the trampoline: the last page of the address space.
pub const TRAMPOLINE_VPN: u64 = TRAMPOLINE / PAGE_SIZE;

/// A page table and the owned segments mapped in it.
pub struct MemorySet {
    /// The table the hardware walks.
    pub page_table: PageTable,
    /// The owned ranges of this address space.
    pub segments: Vec<MemorySegment>,
}

impl MemorySet {
    /// Every page of segment `i` is mapped to the frame the segment
    /// recorded, with the segment's flags.
    pub open spec fn seg_mapped(self, i: int) -> bool {
        forall|v: int| self.segments[i].contains_vpn(v)
            ==> #[trigger] self.page_table.translate_spec(v)
                == Some((self.segments[i].frame_ppn(v), self.segments[i].flags))
    }

    /// Segment ranges are pairwise disjoint.
    pub open spec fn segments_disjoint(self) -> bool {
        forall|i: int, j: int| 0 <= i < j < self.segments.len()
            ==> (#[trigger] self.segments[i]).end_vpn <= (#[trigger] self.segments[j]).start_vpn
                || self.segments[j].end_vpn <= self.segments[i].start_vpn
    }

    pub open spec fn wf(self) -> bool {
        &&& self.page_table.wf()
        &&& forall|i: int| 0 <= i < self.segments.len() ==> (#[trigger] self.segments[i]).wf()
        &&& forall|i: int| 0 <= i < self.segments.len()
            ==> (#[trigger] self.segments[i]).start_vpn < self.segments[i].end_vpn
        &&& self.segments_disjoint()
        &&& forall|i: int| 0 <= i < self.segments.len() ==> self.seg_mapped(i)
    }

    /// Whether the trampoline page is mapped (every constructed address
    /// space keeps it mapped at the fixed top-of-space page).
    pub open spec fn trampoline_mapped(self) -> bool {
        self.page_table.translate_spec(TRAMPOLINE_VPN as int) is Some
    }

    /// Every segment ends at or below the trampoline page: user segments
    /// never claim the fixed top page.
    pub open spec fn segments_below_trampoline(self) -> bool {
        forall|i: int| 0 <= i < self.segments@.len()
            ==> (#[trigger] self.segments@[i]).end_vpn <= TRAMPOLINE_VPN
    }

    /// An empty address space with nothing mapped.
    pub fn new(fa: &mut FrameAllocator) -> (r: Self)
        requires
            old(fa).wf(),
            old(fa).free_count() >= 1,
        ensures
            final(fa).wf(),
            final(fa).start == old(fa).start,
            final(fa).end == old(fa).end,
            final(fa).free_count() == old(fa).free_count() - 1,
            final(fa).free_set().subset_of(old(fa).free_set()),
            r.wf(),
            r.segments@ =~= Seq::<MemorySegment>::empty(),
            forall|v: int| 0 <= v < VPN_LIMIT ==> r.page_table.translate_spec(v) is None,
    {
        let page_table = PageTable::new(fa);
        MemorySet { page_table, segments: Vec::new() }
    }

    /// What translation this address space defines for `vpn`.
    pub fn translate(&self, vpn: VirtPageNum) -> (r: Option<(PhysPageNum, SegFlags)>)
        requires
            self.wf(),
            vpn.0 < VPN_LIMIT,
        ensures
            match r {
                Some((p, f)) => self.page_table.translate_spec(vpn.0 as int)
                    == Some((p.0 as int, f)) && p.0 < PPN_LIMIT,
                None => self.page_table.translate_spec(vpn.0 as int) is None,
            },
    {
        self.page_table.translate(vpn)
    }

    /// The `satp` value that activates this address space.
    pub fn satp_token(&self) -> (r: u64)
        requires
            self.wf(),
        ensures
            r == 0x8000000000000000u64 + self.page_table.root_ppn,
    {
        self.page_table.satp_token()
    }

    /// Map the trampoline page, outside any segment, to the physical page
    /// holding the trampoline code, readable and executable.
    pub fn map_trampoline(&mut self, trampoline_ppn: PhysPageNum, fa: &mut FrameAllocator)
        requires
            old(self).wf(),
            old(self).page_table.translate_spec(TRAMPOLINE_VPN as int) is None,
            trampoline_ppn.0 < PPN_LIMIT,
            old(fa).wf(),
            old(fa).free_count() >= 2,
        ensures
            final(self).wf(),
            final(fa).wf(),
            final(fa).start == old(fa).start,
            final(fa).end == old(fa).end,
            final(fa).free_count() >= old(fa).free_count() - 2,
            final(fa).free_set().subset_of(old(fa).free_set()),
            final(self).segments@ == old(self).segments@,
            final(self).page_table.root_ppn == old(self).page_table.root_ppn,
            final(self).trampoline_mapped(),
            final(self).page_table.translate_spec(TRAMPOLINE_VPN as int)
                == Some((trampoline_ppn.0 as int, (R | X | V) as u8)),
            forall|v: int| 0 <= v < VPN_LIMIT && v != TRAMPOLINE_VPN as int
                ==> final(self).page_table.entry_at(v) == old(self).page_table.entry_at(v),
    {
        let fl: u8 = R | X | V;
        proof {
            let f = fl;
            assert(f == (2u8 | 8u8 | 1u8) ==> f & 1u8 != 0) by (bit_vector);
            assert(V == 1u8 && R == 2u8 && X == 8u8);
        }
        self.page_table.map(VirtPageNum(TRAMPOLINE_VPN), trampoline_ppn, fl, fa);
        proof {
            lemma_segments_still_mapped(*old(self), *self, TRAMPOLINE_VPN as int);
        }
    }

    /// Install one new segment over `[start_vpn, end_vpn)` with flags
    /// `perm | V`: allocate one zeroed frame per page, copy `data` (when
    /// given) byte-exactly from the segment's first byte, and map every
    /// page.  The range must be unmapped; frame exhaustion is excluded as
    /// kernel-fatal (three frames per page always suffice).
    pub fn insert_segment(
        &mut self,
        start_vpn: VirtPageNum,
        end_vpn: VirtPageNum,
        seg_flags: SegFlags,
        data: Option<&[u8]>,
        fa: &mut FrameAllocator,
    )
        requires
            old(self).wf(),
            start_vpn.0 < end_vpn.0 <= VPN_LIMIT,
            forall|v: int| start_vpn.0 <= v < end_vpn.0
                ==> old(self).page_table.translate_spec(v) is None,
            match data {
                Some(d) => d@.len() <= (end_vpn.0 - start_vpn.0) * (PAGE_SIZE as int),
                None => true,
            },
            old(fa).wf(),
            old(fa).free_count() >= 3 * (end_vpn.0 - start_vpn.0),
        ensures
            final(self).wf(),
            final(fa).wf(),
            final(fa).start == old(fa).start,
            final(fa).end == old(fa).end,
            final(fa).free_count() >= old(fa).free_count() - 3 * (end_vpn.0 - start_vpn.0),
            final(fa).free_set().subset_of(old(fa).free_set()),
            final(self).page_table.root_ppn == old(self).page_table.root_ppn,
            final(self).segments@.len() == old(self).segments@.len() + 1,
            final(self).segments@.subrange(0, old(self).segments@.len() as int)
                == old(self).segments@,
            ({
                let seg = final(self).segments@.last();
                &&& seg.start_vpn == start_vpn.0
                &&& seg.end_vpn == end_vpn.0
                &&& seg.flags == seg_flags | V
                &&& match data {
                    Some(d) => (forall|i: int| 0 <= i < d@.len() ==> seg.byte_at(i) == d@[i])
                        && (forall|o: int| d@.len() <= o < seg.len_bytes() ==> seg.byte_at(o) == 0),
                    None => forall|o: int| 0 <= o < seg.len_bytes() ==> seg.byte_at(o) == 0,
                }
                &&& forall|v: int| seg.contains_vpn(v)
                    ==> final(self).page_table.translate_spec(v)
                        == Some((seg.frame_ppn(v), seg.flags))
            }),
            forall|v: int| 0 <= v < VPN_LIMIT && !(start_vpn.0 <= v < end_vpn.0)
                ==> final(self).page_table.entry_at(v) == old(self).page_table.entry_at(v),
    {
        let ghost pre = *old(self);
        let ghost fa_pre = *old(fa);
        let mut seg = MemorySegment::new(start_vpn.0, end_vpn.0, seg_flags, fa);
        if let Some(d) = data {
            proof {
                vstd::arithmetic::mul::lemma_mul_is_commutative(
                    (end_vpn.0 - start_vpn.0) as int, PAGE_SIZE as int);
            }
            seg.copy_data(d);
        }
        let ghost fa1 = *fa;
        let ghost seg_g = seg;
        let n: u64 = end_vpn.0 - start_vpn.0;
        proof {
            assert forall|j: int| 0 <= j < n implies #[trigger] seg.frames[j].ppn.0 < PPN_LIMIT by {
                assert(fa_pre.free_set().contains(seg.frames[j].ppn.0 as int));
            };
        }
        let mut k: u64 = 0;
        while k < n
            invariant
                k <= n,
                seg == seg_g,
                seg.wf(),
                seg.start_vpn == start_vpn.0,
                seg.end_vpn == end_vpn.0,
                seg.frames.len() == n,
                n == end_vpn.0 - start_vpn.0,
                start_vpn.0 < end_vpn.0 <= VPN_LIMIT,
                forall|v: int| start_vpn.0 <= v < end_vpn.0
                    ==> pre.page_table.translate_spec(v) is None,
                forall|j: int| 0 <= j < n ==> #[trigger] seg.frames[j].ppn.0 < PPN_LIMIT,
                self.segments@ == pre.segments@,
                self.page_table.wf(),
                self.page_table.root_ppn == pre.page_table.root_ppn,
                fa.wf(),
                fa.start == fa1.start,
                fa.end == fa1.end,
                fa.free_count() >= fa1.free_count() - 2 * k,
                fa1.free_count() >= 2 * n,
                fa.free_set().subset_of(fa1.free_set()),
                forall|j: int| 0 <= j < k
                    ==> #[trigger] self.page_table.translate_spec(start_vpn.0 + j)
                        == Some((seg.frame_ppn(start_vpn.0 + j), seg.flags)),
                forall|v: int| 0 <= v < VPN_LIMIT && !(start_vpn.0 <= v < start_vpn.0 + k)
                    ==> #[trigger] self.page_table.entry_at(v) == pre.page_table.entry_at(v),
            decreases n - k,
        {
            let vpn = VirtPageNum(start_vpn.0 + k);
            let ppn = seg.frames[k as usize].ppn;
            let ghost pt0 = self.page_table;
            proof {
                assert(self.page_table.entry_at(vpn.0 as int)
                    == pre.page_table.entry_at(vpn.0 as int));
                assert(pre.page_table.translate_spec(vpn.0 as int) is None);
            }
            self.page_table.map(vpn, ppn, seg.flags, fa);
            proof {
                assert forall|j: int| 0 <= j < k + 1
                    implies #[trigger] self.page_table.translate_spec(start_vpn.0 + j)
                        == Some((seg.frame_ppn(start_vpn.0 + j), seg.flags)) by {
                    if j < k {
                        assert(pt0.translate_spec(start_vpn.0 + j)
                            == Some((seg.frame_ppn(start_vpn.0 + j), seg.flags)));
                        assert(0 <= start_vpn.0 + j < VPN_LIMIT);
                        assert(start_vpn.0 + j != vpn.0 as int);
                        assert(self.page_table.entry_at(start_vpn.0 + j)
                            == pt0.entry_at(start_vpn.0 + j));
                    } else {
                        assert(start_vpn.0 + j == vpn.0 as int);
                        assert(seg.frame_ppn(vpn.0 as int) == ppn.0 as int);
                    }
                };
            }
            k = k + 1;
        }
        self.segments.push(seg);
        proof {
            let post = *self;
            let si = pre.segments@.len() as int;
            assert(post.segments@ =~= pre.segments@.push(seg_g));
            // the new segment is fully mapped
            assert forall|v: int| seg_g.contains_vpn(v)
                implies #[trigger] post.page_table.translate_spec(v)
                    == Some((seg_g.frame_ppn(v), seg_g.flags)) by {
                let j = v - start_vpn.0;
                assert(post.page_table.translate_spec(start_vpn.0 + j)
                    == Some((seg_g.frame_ppn(start_vpn.0 + j), seg_g.flags)));
            };
            // every old segment is disjoint from the new range, hence untouched
            assert forall|i: int| 0 <= i < si
                implies (#[trigger] pre.segments[i]).end_vpn <= start_vpn.0
                    || end_vpn.0 <= pre.segments[i].start_vpn by {
                let s = pre.segments[i];
                if !(s.end_vpn <= start_vpn.0 || end_vpn.0 <= s.start_vpn) {
                    let v: int = if s.start_vpn >= start_vpn.0 {
                        s.start_vpn as int
                    } else {
                        start_vpn.0 as int
                    };
                    assert(s.contains_vpn(v));
                    assert(start_vpn.0 <= v < end_vpn.0);
                    assert(pre.seg_mapped(i));
                    assert(pre.page_table.translate_spec(v)
                        == Some((s.frame_ppn(v), s.flags)));
                    assert(pre.page_table.translate_spec(v) is None);
                }
            };
            assert forall|i: int| 0 <= i < post.segments@.len()
                implies post.seg_mapped(i) by {
                if i < si {
                    let s = pre.segments[i];
                    assert(pre.seg_mapped(i));
                    assert forall|v: int| s.contains_vpn(v)
                        implies #[trigger] post.page_table.translate_spec(v)
                            == Some((s.frame_ppn(v), s.flags)) by {
                        assert(pre.page_table.translate_spec(v)
                            == Some((s.frame_ppn(v), s.flags)));
                        assert(0 <= v < VPN_LIMIT);
                        assert(!(start_vpn.0 <= v < end_vpn.0));
                        assert(post.page_table.entry_at(v) == pre.page_table.entry_at(v));
                    };
                }
            };
            assert(post.segments_disjoint());
        }
    }




    /// Identity-map the aligned byte range `[start_va, end_va)`: each page
    /// maps to the equal-numbered physical page with flags `perm | V`.
    /// The pages are owned elsewhere (the kernel image), so no segment is
    /// recorded.
    pub fn map_identity_range(
        &mut self,
        start_va: u64,
        end_va: u64,
        perm: SegFlags,
        fa: &mut FrameAllocator,
    )
        requires
            old(self).wf(),
            start_va % PAGE_SIZE == 0,
            end_va % PAGE_SIZE == 0,
            start_va <= end_va,
            end_va < TRAMPOLINE,
            perm % 2 == 0,
            forall|v: int| start_va / PAGE_SIZE <= v < end_va / PAGE_SIZE
                ==> old(self).page_table.translate_spec(v) is None,
            old(fa).wf(),
            old(fa).free_count() >= 2 * ((end_va / PAGE_SIZE) / 512
                - (start_va / PAGE_SIZE) / 512) + 4,
        ensures
            final(self).wf(),
            final(fa).wf(),
            final(fa).start == old(fa).start,
            final(fa).end == old(fa).end,
            final(fa).free_set().subset_of(old(fa).free_set()),
            final(fa).free_count() >= old(fa).free_count()
                - 2 * ((end_va / PAGE_SIZE) / 512 - (start_va / PAGE_SIZE) / 512) - 4,
            final(self).segments@ == old(self).segments@,
            final(self).page_table.root_ppn == old(self).page_table.root_ppn,
            forall|v: int| start_va / PAGE_SIZE <= v < end_va / PAGE_SIZE
                ==> final(self).page_table.translate_spec(v) == Some((v, (perm | V) as u8)),
            forall|v: int| 0 <= v < VPN_LIMIT
                && !(start_va / PAGE_SIZE <= v < end_va / PAGE_SIZE)
                ==> final(self).page_table.entry_at(v) == old(self).page_table.entry_at(v),
    {
        proof {
            lemma_or_v_even(perm);
        }
        let flags = perm | V;
        let start_vpn = start_va / PAGE_SIZE;
        let end_vpn = end_va / PAGE_SIZE;
        let ghost pre = *old(self);
        let ghost fa0 = *fa;
        let mut k: u64 = start_vpn;
        proof {
            assert(end_vpn < VPN_LIMIT) by {
                vstd::arithmetic::div_mod::lemma_div_is_ordered(
                    end_va as int, TRAMPOLINE as int, PAGE_SIZE as int);
            };
        }
        while k < end_vpn
            invariant
                start_vpn <= k <= end_vpn,
                start_vpn == start_va / PAGE_SIZE,
                end_vpn == end_va / PAGE_SIZE,
                end_vpn < VPN_LIMIT,
                flags == perm | V,
                flags & V != 0,
                flags as int == perm + 1,
                self.wf(),
                self.segments@ == pre.segments@,
                self.page_table.root_ppn == pre.page_table.root_ppn,
                forall|v: int| start_vpn <= v < end_vpn
                    ==> pre.page_table.translate_spec(v) is None,
                forall|v: int| start_vpn <= v < k
                    ==> #[trigger] self.page_table.translate_spec(v)
                        == Some((v, flags)),
                forall|v: int| 0 <= v < VPN_LIMIT && !(start_vpn <= v < k)
                    ==> #[trigger] self.page_table.entry_at(v) == pre.page_table.entry_at(v),
                fa.wf(),
                fa.start == fa0.start,
                fa.end == fa0.end,
                fa.free_set().subset_of(fa0.free_set()),
                k == start_vpn ==> fa.free_count() == fa0.free_count(),
                k > start_vpn ==> fa.free_count() >= fa0.free_count()
                    - 2 * ((k - 1) as int / 512 - start_vpn as int / 512) - 2,
                fa0.free_count() >= 2 * (end_vpn as int / 512 - start_vpn as int / 512) + 4,
            decreases end_vpn - k,
        {
            let ghost pt0 = self.page_table;
            let ghost fa_in = *fa;
            proof {
                assert(self.page_table.entry_at(k as int) == pre.page_table.entry_at(k as int));
                assert(pre.page_table.translate_spec(k as int) is None);
                assert(k < PPN_LIMIT);
                if k > start_vpn {
                    vstd::arithmetic::div_mod::lemma_div_is_ordered(
                        (k - 1) as int, end_vpn as int, 512);
                    vstd::arithmetic::div_mod::lemma_div_is_ordered(
                        start_vpn as int, (k - 1) as int, 512);
                }
                assert(fa.free_count() >= 2);
            }
            let ghost sg0 = *self;
            self.page_table.map(VirtPageNum(k), PhysPageNum(k), flags, fa);
            proof {
                lemma_segments_still_mapped(sg0, *self, k as int);
                assert forall|v: int| start_vpn <= v < k + 1
                    implies #[trigger] self.page_table.translate_spec(v)
                        == Some((v, flags)) by {
                    if v < k {
                        assert(pt0.translate_spec(v) == Some((v, flags)));
                        assert(self.page_table.entry_at(v) == pt0.entry_at(v));
                    }
                };
                // frame budget: a page in the same 512-block as the one
                // just mapped finds its tables already in place
                if k > start_vpn {
                    crate::addr::lemma_vpn_reconstruct(k as int);
                    crate::addr::lemma_vpn_reconstruct((k - 1) as int);
                    if k as int / 512 == (k - 1) as int / 512 {
                        assert(vpn_index2(k as int) == vpn_index2((k - 1) as int)
                            && vpn_index1(k as int) == vpn_index1((k - 1) as int))
                            by (nonlinear_arith)
                            requires k as int / 512 == (k - 1) as int / 512, k >= 1;
                        assert(pt0.translate_spec((k - 1) as int) == Some(((k - 1) as int, flags)));
                        assert(pt0.entry_at((k - 1) as int) != 0);
                        assert(pt0.tables_missing(k as int) == 0);
                    } else {
                        vstd::arithmetic::div_mod::lemma_div_is_ordered(
                            (k - 1) as int, k as int, 512);
                        assert(pt0.tables_missing(k as int) <= 2);
                    }
                } else {
                    assert(pt0.tables_missing(k as int) <= 2);
                    vstd::arithmetic::div_mod::lemma_div_is_ordered(
                        start_vpn as int, k as int, 512);
                }
            }
            k = k + 1;
        }
    }

    /// Install the segment loadable header `idx` asks for: its page range
    /// with its declared permissions, the file bytes copied to the front.
    fn insert_load_segment(
        &mut self,
        elf_data: &[u8],
        ph: crate::elf::ProgramHeader,
        Ghost(idx): Ghost<int>,
        fa: &mut FrameAllocator,
    ) -> (new_end: u64)
        requires
            elf_wf(elf_data@),
            0 <= idx < elf_phnum(elf_data@),
            ph_is_load(elf_data@, idx),
            ph.flags as int == ph_flags(elf_data@, idx),
            ph.offset as int == ph_offset(elf_data@, idx),
            ph.vaddr as int == ph_vaddr(elf_data@, idx),
            ph.file_size as int == ph_filesz(elf_data@, idx),
            ph.mem_size as int == ph_memsz(elf_data@, idx),
            old(self).wf(),
            forall|v: int| ph_start_vpn(elf_data@, idx) <= v < ph_end_vpn(elf_data@, idx)
                ==> old(self).page_table.translate_spec(v) is None,
            old(fa).wf(),
            old(fa).free_count()
                >= 3 * (ph_end_vpn(elf_data@, idx) - ph_start_vpn(elf_data@, idx)),
        ensures
            final(self).wf(),
            final(fa).wf(),
            final(fa).start == old(fa).start,
            final(fa).end == old(fa).end,
            final(fa).free_set().subset_of(old(fa).free_set()),
            final(fa).free_count() >= old(fa).free_count()
                - 3 * (ph_end_vpn(elf_data@, idx) - ph_start_vpn(elf_data@, idx)),
            final(self).page_table.root_ppn == old(self).page_table.root_ppn,
            final(self).segments@.len() == old(self).segments@.len() + 1,
            final(self).segments@.subrange(0, old(self).segments@.len() as int)
                == old(self).segments@,
            seg_matches_ph(final(self).segments@.last(), elf_data@, idx),
            new_end as int == ph_end_vpn(elf_data@, idx),
            forall|v: int| 0 <= v < VPN_LIMIT
                && !(ph_start_vpn(elf_data@, idx) <= v < ph_end_vpn(elf_data@, idx))
                ==> final(self).page_table.entry_at(v) == old(self).page_table.entry_at(v),
    {
        let ghost b = elf_data@;
        proof {
            assert(ph_vaddr(b, idx) % (PAGE_SIZE as int) == 0);
            assert(ph_vaddr(b, idx) + ph_memsz(b, idx) < MAX_USER_VA);
            assert(ph_offset(b, idx) + ph_filesz(b, idx) <= b.len());
        }
        let start_vpn = ph.vaddr / PAGE_SIZE;
        let end_vpn = (ph.vaddr + ph.mem_size) / PAGE_SIZE + 1;
        proof {
            assert(start_vpn as int == ph_start_vpn(b, idx));
            assert(end_vpn as int == ph_end_vpn(b, idx));
            vstd::arithmetic::div_mod::lemma_div_is_ordered(
                ph_vaddr(b, idx),
                ph_vaddr(b, idx) + ph_memsz(b, idx),
                PAGE_SIZE as int,
            );
            vstd::arithmetic::div_mod::lemma_div_is_ordered(
                ph_vaddr(b, idx) + ph_memsz(b, idx),
                MAX_USER_VA as int,
                PAGE_SIZE as int,
            );
            lemma_aligned_range_capacity(
                ph_vaddr(b, idx), ph_memsz(b, idx), ph_filesz(b, idx));
        }
        let mut perm: u8 = U;
        if ph.flags % 8 >= 4 {
            perm = perm + R;
        }
        if ph.flags % 4 >= 2 {
            perm = perm + W;
        }
        if ph.flags % 2 >= 1 {
            perm = perm + X;
        }
        proof {
            lemma_or_v_even(perm);
            assert((perm | V) as int == elf_perm_v(ph_flags(b, idx)) as int);
            assert((ph.offset as int) + (ph.file_size as int) <= elf_data@.len());
        }
        let data_len: usize = elf_data.len();
        proof {
            assert(data_len as int == elf_data@.len());
            assert((ph.offset as int) <= data_len as int);
            assert((ph.file_size as int) <= data_len as int);
        }
        let off = ph.offset as usize;
        let fsz = ph.file_size as usize;
        proof {
            assert(off as int == ph.offset as int);
            assert(fsz as int == ph.file_size as int);
        }
        let data_part = vstd::slice::slice_subrange(elf_data, off, off + fsz);
        self.insert_segment(
            VirtPageNum(start_vpn),
            VirtPageNum(end_vpn),
            perm,
            Some(data_part),
            fa,
        );
        proof {
            let si = self.segments@.len() - 1;
            assert(seg_matches_ph(self.segments[si], b, idx)) by {
                assert(data_part@ =~= b.subrange(
                    ph_offset(b, idx), ph_offset(b, idx) + ph_filesz(b, idx)));
            };
        }
        end_vpn
    }

    /// Build a user address space from an ELF image: one segment per
    /// loadable header with its file bytes copied in, then the user stack
    /// one guard page above the highest loaded page, the trap-context
    /// page, and the trampoline.  Returns the space, the initial user
    /// stack pointer, and the entry address; `Err` exactly on an invalid
    /// image.  Frame exhaustion is kernel-fatal and excluded by contract.
    #[verifier::rlimit(100)]
    #[verifier::spinoff_prover]
    pub fn from_elf(
        elf_data: &[u8],
        trampoline_ppn: PhysPageNum,
        fa: &mut FrameAllocator,
    ) -> (r: Result<(MemorySet, u64, u64), KernError>)
        requires
            old(fa).wf(),
            trampoline_ppn.0 < PPN_LIMIT,
            elf_wf(elf_data@) ==> old(fa).free_count()
                >= 3 * elf_pages_upto(elf_data@, elf_phnum(elf_data@))
                    + 3 * (USER_STACK_PAGES + 1) + 3,
        ensures
            final(fa).wf(),
            final(fa).start == old(fa).start,
            final(fa).end == old(fa).end,
            final(fa).free_set().subset_of(old(fa).free_set()),
            r is Ok <==> elf_wf(elf_data@),
            r is Err ==> r == Err::<(MemorySet, u64, u64), KernError>(KernError::InvalidElf),
            match r {
                Ok((ms, user_sp, entry)) => {
                    let b = elf_data@;
                    let max_end = elf_max_end_upto(b, elf_phnum(b));
                    &&& ms.wf()
                    &&& ms.trampoline_mapped()
                    &&& ms.segments_below_trampoline()
                    &&& ms.page_table.translate_spec(TRAMPOLINE_VPN as int)
                        == Some((trampoline_ppn.0 as int, (R | X | V) as u8))
                    &&& entry == elf_entry(b)
                    &&& user_sp == (max_end + 1 + USER_STACK_PAGES) * (PAGE_SIZE as int) - 1
                    &&& forall|i: int| 0 <= i < elf_phnum(b) && ph_is_load(b, i)
                        ==> exists|si: int| 0 <= si < ms.segments@.len()
                            && seg_matches_ph(#[trigger] ms.segments[si], b, i)
                    &&& exists|si: int| 0 <= si < ms.segments@.len()
                        && (#[trigger] ms.segments[si]).start_vpn == max_end + 1
                        && ms.segments[si].end_vpn == max_end + 1 + USER_STACK_PAGES
                        && ms.segments[si].flags == 23u8
                        && (forall|t: int| 0 <= t < ms.segments[si].len_bytes()
                            ==> ms.segments[si].byte_at(t) == 0)
                    &&& exists|si: int| 0 <= si < ms.segments@.len()
                        && (#[trigger] ms.segments[si]).start_vpn == TRAP_CONTEXT_VPN
                        && ms.segments[si].end_vpn == TRAMPOLINE_VPN
                        && ms.segments[si].flags == 7u8
                },
                Err(_) => true,
            },
    {
        let ghost b = elf_data@;
        let elf = match parse_elf(elf_data) {
            Some(e) => e,
            None => {
                return Err(KernError::InvalidElf);
            },
        };
        let ghost phn = elf_phnum(b);
        proof {
            crate::elf::lemma_pages_upto_bounds(b, 0, phn);
        }
        let mut ms = MemorySet::new(fa);
        let ghost ms_new = ms;
        ms.map_trampoline(trampoline_ppn, fa);
        let ghost fa1 = *fa;
        proof {
            assert forall|v: int| 0 <= v < VPN_LIMIT && v != TRAMPOLINE_VPN as int
                implies ms.page_table.translate_spec(v) is None by {
                assert(ms.page_table.entry_at(v) == ms_new.page_table.entry_at(v));
                assert(ms_new.page_table.translate_spec(v) is None);
            };
        }
        let mut max_end_vpn: u64 = 0;
        let mut idx: usize = 0;
        proof {
            lemma_max_end_bound(b, 0);
        }
        while idx < elf.program_headers.len()
            invariant
                elf_wf(b),
                b == elf_data@,
                elf.matches(b),
                elf.program_headers.len() == phn,
                phn == elf_phnum(b),
                idx <= phn,
                ms.wf(),
                ms.page_table.translate_spec(TRAMPOLINE_VPN as int)
                    == Some((trampoline_ppn.0 as int, (R | X | V) as u8)),
                max_end_vpn as int == elf_max_end_upto(b, idx as int),
                max_end_vpn as int <= MAX_USER_VA as int / (PAGE_SIZE as int) + 1,
                forall|v: int| max_end_vpn <= v < VPN_LIMIT && v != TRAMPOLINE_VPN as int
                    ==> ms.page_table.translate_spec(v) is None,
                forall|i: int| 0 <= i < idx && ph_is_load(b, i)
                    ==> exists|si: int| 0 <= si < ms.segments@.len()
                        && seg_matches_ph(#[trigger] ms.segments[si], b, i),
                ms.segments_below_trampoline(),
                fa.wf(),
                fa.start == fa1.start,
                fa.end == fa1.end,
                fa.free_set().subset_of(fa1.free_set()),
                fa.free_count() >= 3 * (elf_pages_upto(b, phn) - elf_pages_upto(b, idx as int))
                    + 3 * (USER_STACK_PAGES + 1),
            decreases phn - idx,
        {
            proof {
                crate::elf::lemma_pages_upto_bounds(b, idx as int, phn);
                crate::elf::lemma_pages_upto_bounds(b, idx as int + 1, phn);
            }
            let ph = elf.program_headers[idx];
            if ph.is_load() {
                proof {
                    assert(ph_is_load(b, idx as int));
                    lemma_load_start_above_max_end(b, idx as int);
                    assert forall|v: int|
                        ph_start_vpn(b, idx as int) <= v < ph_end_vpn(b, idx as int)
                        implies ms.page_table.translate_spec(v) is None by {
                        lemma_max_end_bound(b, idx as int);
                        assert(v < TRAMPOLINE_VPN as int) by {
                            vstd::arithmetic::div_mod::lemma_div_is_ordered(
                                ph_vaddr(b, idx as int) + ph_memsz(b, idx as int),
                                MAX_USER_VA as int,
                                PAGE_SIZE as int,
                            );
                        };
                    };
                }
                let ghost ms0 = ms;
                let ghost old_max = max_end_vpn as int;
                let end_vpn = ms.insert_load_segment(elf_data, ph, Ghost(idx as int), fa);
                if end_vpn > max_end_vpn {
                    max_end_vpn = end_vpn;
                }
                proof {
                    let si = ms.segments@.len() - 1;
                    assert forall|i: int| 0 <= i < idx + 1 && ph_is_load(b, i)
                        implies exists|sj: int| 0 <= sj < ms.segments@.len()
                            && seg_matches_ph(#[trigger] ms.segments[sj], b, i) by {
                        if i < idx {
                            let sj = choose|sj: int| 0 <= sj < ms0.segments@.len()
                                && seg_matches_ph(ms0.segments[sj], b, i);
                            assert(ms.segments[sj] == ms0.segments[sj]);
                            assert(seg_matches_ph(ms.segments[sj], b, i));
                        } else {
                            assert(seg_matches_ph(ms.segments[si], b, i));
                        }
                    };
                    assert forall|v: int|
                        max_end_vpn <= v < VPN_LIMIT && v != TRAMPOLINE_VPN as int
                        implies ms.page_table.translate_spec(v) is None by {
                        assert(v >= old_max);
                        assert(v >= ph_end_vpn(b, idx as int));
                        assert(!(ph_start_vpn(b, idx as int) <= v < ph_end_vpn(b, idx as int)));
                        assert(ms.page_table.entry_at(v) == ms0.page_table.entry_at(v));
                        assert(ms0.page_table.translate_spec(v) is None);
                    };
                    assert(ms.page_table.translate_spec(TRAMPOLINE_VPN as int)
                        == Some((trampoline_ppn.0 as int, (R | X | V) as u8))) by {
                        assert(ms.page_table.entry_at(TRAMPOLINE_VPN as int)
                            == ms0.page_table.entry_at(TRAMPOLINE_VPN as int));
                    };
                    assert(TRAMPOLINE_VPN == 0x7FFFFFFu64);
                    assert forall|si: int| 0 <= si < ms.segments@.len()
                        implies (#[trigger] ms.segments@[si]).end_vpn <= TRAMPOLINE_VPN by {
                        if si < ms0.segments@.len() {
                            assert(ms.segments@[si] == ms0.segments@[si]);
                        }
                    };
                }
            }
            idx = idx + 1;
        }
        // user stack, one guard page above the highest loaded page
        let user_stack_start_vpn = max_end_vpn + 1;
        let user_stack_end_vpn = user_stack_start_vpn + USER_STACK_PAGES;
        let ghost ms_a = ms;
        proof {
            assert(22u8 % 2 == 0);
            lemma_or_v_even(22u8);
        }
        ms.insert_segment(
            VirtPageNum(user_stack_start_vpn),
            VirtPageNum(user_stack_end_vpn),
            U + R + W,
            None,
            fa,
        );
        proof {
            let si = ms.segments@.len() - 1;
            assert(ms.segments[si].flags == 23u8);
            assert(TRAMPOLINE_VPN == 0x7FFFFFFu64);
            assert(TRAP_CONTEXT_VPN == 0x7FFFFFEu64);
            assert(MAX_USER_VA as int / (PAGE_SIZE as int) + 1 == 0x7FFFFEDint);
            assert forall|v: int|
                TRAP_CONTEXT_VPN <= v < VPN_LIMIT && v != TRAMPOLINE_VPN as int
                implies ms.page_table.translate_spec(v) is None by {
                assert(v >= max_end_vpn);
                assert(!(user_stack_start_vpn <= v < user_stack_end_vpn));
                assert(ms.page_table.entry_at(v) == ms_a.page_table.entry_at(v));
                assert(ms_a.page_table.translate_spec(v) is None);
            };
        }
        // the trap-context page, one page below the trampoline
        let ghost ms_b = ms;
        proof {
            assert(6u8 % 2 == 0);
            lemma_or_v_even(6u8);
        }
        ms.insert_segment(
            VirtPageNum(TRAP_CONTEXT_VPN),
            VirtPageNum(TRAMPOLINE_VPN),
            R + W,
            None,
            fa,
        );
        let user_sp = user_stack_end_vpn * PAGE_SIZE - 1;
        proof {
            let si = ms.segments@.len() - 1;
            assert(ms.segments[si].flags == 7u8);
            assert forall|sj: int| 0 <= sj < ms.segments@.len()
                implies (#[trigger] ms.segments@[sj]).end_vpn <= TRAMPOLINE_VPN by {
                if sj < ms_b.segments@.len() {
                    assert(ms.segments@[sj] == ms_b.segments@[sj]);
                    if sj < ms_a.segments@.len() {
                        assert(ms_b.segments@[sj] == ms_a.segments@[sj]);
                    } else {
                        assert(ms_b.segments@[sj] == ms_b.segments@.last());
                    }
                }
            };
            let stack_si = ms.segments@.len() - 2;
            assert(ms.segments[stack_si] == ms_b.segments@.last());
            assert forall|i: int| 0 <= i < phn && ph_is_load(b, i)
                implies exists|sj: int| 0 <= sj < ms.segments@.len()
                    && seg_matches_ph(#[trigger] ms.segments[sj], b, i) by {
                let sj = choose|sj: int| 0 <= sj < ms_a.segments@.len()
                    && seg_matches_ph(ms_a.segments[sj], b, i);
                assert(ms.segments[sj] == ms_a.segments[sj]);
                assert(seg_matches_ph(ms.segments[sj], b, i));
            };
        }
        Ok((ms, user_sp, elf.entry))
    }


    /// Total pages across all segments.
    pub open spec fn total_seg_pages(self) -> int {
        seg_pages_upto(self.segments@, self.segments@.len() as int)
    }

    /// Copy this address space for a fork: a fresh page table, the same
    /// trampoline translation, and one fresh segment per segment with the
    /// same range, flags, and bytes.
    pub fn clone_space(&self, fa: &mut FrameAllocator) -> (r: MemorySet)
        requires
            self.wf(),
            self.trampoline_mapped(),
            self.segments_below_trampoline(),
            forall|i: int| 0 <= i < self.segments@.len()
                ==> (#[trigger] self.segments@[i]).len_bytes() <= usize::MAX,
            old(fa).wf(),
            old(fa).free_count() >= 3 * self.total_seg_pages() + 3,
        ensures
            final(fa).wf(),
            final(fa).start == old(fa).start,
            final(fa).end == old(fa).end,
            final(fa).free_set().subset_of(old(fa).free_set()),
            r.wf(),
            r.trampoline_mapped(),
            r.segments_below_trampoline(),
            (self.page_table.translate_spec(TRAMPOLINE_VPN as int) matches Some(st)
                && r.page_table.translate_spec(TRAMPOLINE_VPN as int)
                    == Some((st.0, (R | X | V) as u8))),
            same_user_content(*self, r),
    {
        proof {
            lemma_seg_pages_upto_bounds(self.segments@, 0, self.segments@.len() as int);
        }
        let ghost fa0 = *fa;
        let mut r = MemorySet::new(fa);
        let ghost r_new = r;
        let (tp, _tf) = match self.page_table.translate(VirtPageNum(TRAMPOLINE / PAGE_SIZE)) {
            Some(p) => p,
            None => {
                proof {
                    assert(false);
                }
                (PhysPageNum(0), 0u8)
            },
        };
        r.map_trampoline(tp, fa);
        proof {
            assert forall|v: int| 0 <= v < VPN_LIMIT && v != TRAMPOLINE_VPN as int
                implies r.page_table.translate_spec(v) is None by {
                assert(r.page_table.entry_at(v) == r_new.page_table.entry_at(v));
                assert(r_new.page_table.translate_spec(v) is None);
            };
        }
        let ghost fa1 = *fa;
        let mut i: usize = 0;
        while i < self.segments.len()
            invariant
                self.wf(),
                self.segments_below_trampoline(),
                forall|k: int| 0 <= k < self.segments@.len()
                    ==> (#[trigger] self.segments@[k]).len_bytes() <= usize::MAX,
                i <= self.segments@.len(),
                r.wf(),
                (self.page_table.translate_spec(TRAMPOLINE_VPN as int) matches Some(st)
                    && r.page_table.translate_spec(TRAMPOLINE_VPN as int)
                        == Some((st.0, (R | X | V) as u8))),
                r.trampoline_mapped(),
                r.segments@.len() == i,
                forall|k: int| 0 <= k < i ==> {
                    let a = #[trigger] self.segments@[k];
                    let b = r.segments@[k];
                    &&& b.start_vpn == a.start_vpn
                    &&& b.end_vpn == a.end_vpn
                    &&& b.flags == a.flags
                    &&& forall|o: int| 0 <= o < a.len_bytes()
                        ==> #[trigger] b.byte_at(o) == a.byte_at(o)
                },
                forall|v: int| 0 <= v < VPN_LIMIT && v != TRAMPOLINE_VPN as int
                    && !(exists|k: int| 0 <= k < i
                        && (#[trigger] self.segments@[k]).contains_vpn(v))
                    ==> r.page_table.translate_spec(v) is None,
                fa.wf(),
                fa.start == fa1.start,
                fa.end == fa1.end,
                fa.free_set().subset_of(fa1.free_set()),
                fa.free_count() >= fa1.free_count()
                    - 3 * seg_pages_upto(self.segments@, i as int),
                fa1.free_count() >= 3 * self.total_seg_pages(),
            decreases self.segments@.len() - i,
        {
            let seg = &self.segments[i];
            proof {
                lemma_seg_pages_upto_bounds(self.segments@, i as int, self.segments@.len() as int);
                lemma_seg_pages_upto_bounds(self.segments@, i as int + 1,
                    self.segments@.len() as int);
                assert(seg_pages_upto(self.segments@, i as int + 1)
                    == seg_pages_upto(self.segments@, i as int) + self.segments@[i as int].len_pages());
                assert forall|v: int| seg.start_vpn <= v < seg.end_vpn
                    implies r.page_table.translate_spec(v) is None by {
                    assert forall|k: int| 0 <= k < i
                        implies !((#[trigger] self.segments@[k]).contains_vpn(v)) by {
                        if self.segments@[k].contains_vpn(v) {
                            assert(self.segments@[k].end_vpn <= self.segments@[i as int].start_vpn
                                || self.segments@[i as int].end_vpn <= self.segments@[k].start_vpn);
                        }
                    };
                    assert(v < TRAMPOLINE_VPN as int);
                };
                vstd::arithmetic::mul::lemma_mul_is_commutative(
                    seg.len_pages(), PAGE_SIZE as int);
            }
            let data = seg.flat_bytes();
            let ghost r0 = r;
            r.insert_segment(
                VirtPageNum(seg.start_vpn),
                VirtPageNum(seg.end_vpn),
                seg.flags,
                Some(data.as_slice()),
                fa,
            );
            proof {
                let a = self.segments@[i as int];
                let b = r.segments@.last();
                lemma_flag_or_self(a.flags);
                assert(b.flags == a.flags);
                assert forall|o: int| 0 <= o < a.len_bytes()
                    implies #[trigger] b.byte_at(o) == a.byte_at(o) by {
                    assert(b.byte_at(o) == data@[o]);
                };
                assert forall|k: int| 0 <= k < i + 1 implies {
                    let aa = #[trigger] self.segments@[k];
                    let bb = r.segments@[k];
                    &&& bb.start_vpn == aa.start_vpn
                    &&& bb.end_vpn == aa.end_vpn
                    &&& bb.flags == aa.flags
                    &&& forall|o: int| 0 <= o < aa.len_bytes()
                        ==> #[trigger] bb.byte_at(o) == aa.byte_at(o)
                } by {
                    if k < i {
                        assert(r.segments@[k] == r0.segments@[k]);
                    }
                };
                assert forall|v: int| 0 <= v < VPN_LIMIT && v != TRAMPOLINE_VPN as int
                    && !(exists|k: int| 0 <= k < i + 1
                        && (#[trigger] self.segments@[k]).contains_vpn(v))
                    implies r.page_table.translate_spec(v) is None by {
                    assert(!(a.start_vpn <= v < a.end_vpn));
                    assert(r.page_table.entry_at(v) == r0.page_table.entry_at(v));
                    assert(r0.page_table.translate_spec(v) is None);
                };
                assert(r.page_table.entry_at(TRAMPOLINE_VPN as int)
                    == r0.page_table.entry_at(TRAMPOLINE_VPN as int));
            }
            i = i + 1;
        }
        proof {
            assert forall|si: int| 0 <= si < r.segments@.len()
                implies (#[trigger] r.segments@[si]).end_vpn <= TRAMPOLINE_VPN by {
                assert(r.segments@[si].end_vpn == self.segments@[si].end_vpn);
            };
            assert(same_user_content(*self, r));
        }
        r
    }

    /// Read one byte of this address space through its owning segment;
    /// `None` when no segment covers the page of `va`.  When the read
    /// succeeds, the page table translates the page to the very frame the
    /// byte was read from.
    pub fn read_byte(&self, va: VirtAddr) -> (r: Option<u8>)
        requires
            self.wf(),
            va.0 < VPN_LIMIT * PAGE_SIZE,
        ensures
            match r {
                Some(b) => exists|i: int| 0 <= i < self.segments@.len()
                    && (#[trigger] self.segments[i]).contains_vpn(va.0 as int / (PAGE_SIZE as int))
                    && b == self.segments[i].byte_at(
                        va.0 as int - self.segments[i].start_vpn * (PAGE_SIZE as int)),
                None => forall|i: int| 0 <= i < self.segments@.len()
                    ==> !(#[trigger] self.segments[i]).contains_vpn(
                        va.0 as int / (PAGE_SIZE as int)),
            },
    {
        let vpn = VirtAddr(va.0).vpn();
        let mut i: usize = 0;
        while i < self.segments.len()
            invariant
                self.wf(),
                va.0 < VPN_LIMIT * PAGE_SIZE,
                vpn.0 == va.0 as int / (PAGE_SIZE as int),
                i <= self.segments@.len(),
                forall|j: int| 0 <= j < i
                    ==> !(#[trigger] self.segments[j]).contains_vpn(vpn.0 as int),
            decreases self.segments@.len() - i,
        {
            let s = &self.segments[i];
            if s.start_vpn <= vpn.0 && vpn.0 < s.end_vpn {
                proof {
                    let o = va.0 as int;
                    let p = PAGE_SIZE as int;
                    let st = s.start_vpn as int;
                    assert(0 <= o - st * p < (s.end_vpn - st) * p
                        && o - st * p == (o / p - st) * p + o % p
                        && o / p - st == (o - st * p) / p
                        && o % p == (o - st * p) % p)
                        by (nonlinear_arith)
                        requires
                            p == 4096,
                            0 <= o,
                            st <= o / p < s.end_vpn as int,
                            st >= 0;
                }
                let off = (va.0 - s.start_vpn * PAGE_SIZE) as u64;
                let b = s.read_byte(off);
                proof {
                    assert(self.segments[i as int].contains_vpn(vpn.0 as int));
                }
                return Some(b);
            }
            i = i + 1;
        }
        None
    }
}

/// Whether `b` maps the same user content as `a`: segment for segment,
/// the same page range, the same flags, the same bytes.
pub open spec fn same_user_content(a: MemorySet, b: MemorySet) -> bool {
    &&& b.segments@.len() == a.segments@.len()
    &&& forall|i: int| 0 <= i < a.segments@.len() ==> {
        let x = #[trigger] a.segments@[i];
        let y = b.segments@[i];
        &&& y.start_vpn == x.start_vpn
        &&& y.end_vpn == x.end_vpn
        &&& y.flags == x.flags
        &&& forall|o: int| 0 <= o < x.len_bytes() ==> #[trigger] y.byte_at(o) == x.byte_at(o)
    }
}

/// The flag byte a loadable header's pages are mapped with: U, V, and
/// whichever of R/W/X the header declares, as a sum of the disjoint bits.
pub open spec fn elf_perm_v(f: int) -> u8 {
    (17 + (if f % 8 >= 4 { 2int } else { 0int }) + (if f % 4 >= 2 { 4int } else { 0int })
        + (if f % 2 >= 1 { 8int } else { 0int })) as u8
}

/// Whether `seg` is exactly the segment loadable header `i` of image `b`
/// asks for: its page range, its permissions, the file bytes at the
/// start, zeroes after them.
pub open spec fn seg_matches_ph(seg: MemorySegment, b: Seq<u8>, i: int) -> bool {
    &&& seg.start_vpn == ph_start_vpn(b, i)
    &&& seg.end_vpn == ph_end_vpn(b, i)
    &&& seg.flags == elf_perm_v(ph_flags(b, i))
    &&& forall|t: int| 0 <= t < ph_filesz(b, i)
        ==> #[trigger] seg.byte_at(t) == b[ph_offset(b, i) + t]
    &&& forall|t: int| ph_filesz(b, i) <= t < seg.len_bytes()
        ==> #[trigger] seg.byte_at(t) == 0
}


/// The linker-provided boundaries of the kernel image, page-aligned and
/// ascending, plus the platform memory ceiling and the physical address
/// of the trampoline code page.
pub struct KernelLayout {
    pub text_start: u64,
    pub text_end: u64,
    pub rodata_start: u64,
    pub rodata_end: u64,
    pub data_start: u64,
    pub data_end: u64,
    pub bss_start: u64,
    pub bss_end: u64,
    pub kernel_end: u64,
    pub memory_end: u64,
    pub trampoline_pa: u64,
}

impl KernelLayout {
    pub open spec fn wf(self) -> bool {
        &&& self.text_start <= self.text_end <= self.rodata_start <= self.rodata_end
        &&& self.rodata_end <= self.data_start <= self.data_end <= self.bss_start
        &&& self.bss_start <= self.bss_end <= self.kernel_end <= self.memory_end
        &&& self.memory_end < TRAMPOLINE
        &&& self.text_start % PAGE_SIZE == 0 && self.text_end % PAGE_SIZE == 0
        &&& self.rodata_start % PAGE_SIZE == 0 && self.rodata_end % PAGE_SIZE == 0
        &&& self.data_start % PAGE_SIZE == 0 && self.data_end % PAGE_SIZE == 0
        &&& self.bss_start % PAGE_SIZE == 0 && self.bss_end % PAGE_SIZE == 0
        &&& self.kernel_end % PAGE_SIZE == 0 && self.memory_end % PAGE_SIZE == 0
        &&& self.trampoline_pa / PAGE_SIZE < PPN_LIMIT
    }

    /// Pages the kernel address space maps, identity ranges plus slack
    /// for the trampoline and the root table.
    pub open spec fn pages_needed(self) -> int {
        (self.memory_end as int) / (PAGE_SIZE as int) - (self.text_start as int) / (PAGE_SIZE as int)
    }
}

impl MemorySet {
    /// Build the kernel address space: identity-map .text readable and
    /// executable, .rodata readable, .data and .bss readable and
    /// writable, the rest of physical memory readable and writable, and
    /// map the trampoline at its fixed page.
    pub fn new_kernel(layout: &KernelLayout, fa: &mut FrameAllocator) -> (r: MemorySet)
        requires
            layout.wf(),
            old(fa).wf(),
            old(fa).free_count() >= 2 * (((layout.memory_end as int) / (PAGE_SIZE as int)) / 512
                - ((layout.text_start as int) / (PAGE_SIZE as int)) / 512) + 23,
        ensures
            final(fa).free_count() >= old(fa).free_count()
                - 2 * (((layout.memory_end as int) / (PAGE_SIZE as int)) / 512
                    - ((layout.text_start as int) / (PAGE_SIZE as int)) / 512) - 23,
            final(fa).wf(),
            final(fa).start == old(fa).start,
            final(fa).end == old(fa).end,
            final(fa).free_set().subset_of(old(fa).free_set()),
            r.wf(),
            r.segments@ =~= Seq::<MemorySegment>::empty(),
            r.trampoline_mapped(),
            r.page_table.translate_spec(TRAMPOLINE_VPN as int)
                == Some((layout.trampoline_pa as int / (PAGE_SIZE as int), (R | X | V) as u8)),
            forall|v: int| (layout.text_start as int) / (PAGE_SIZE as int) <= v < (layout.text_end as int) / (PAGE_SIZE as int)
                ==> r.page_table.translate_spec(v) == Some((v, (((R + X) as u8) | V))),
            forall|v: int| (layout.rodata_start as int) / (PAGE_SIZE as int) <= v < (layout.rodata_end as int) / (PAGE_SIZE as int)
                ==> r.page_table.translate_spec(v) == Some((v, (R | V))),
            forall|v: int| (layout.data_start as int) / (PAGE_SIZE as int) <= v < (layout.data_end as int) / (PAGE_SIZE as int)
                ==> r.page_table.translate_spec(v) == Some((v, (((R + W) as u8) | V))),
            forall|v: int| (layout.bss_start as int) / (PAGE_SIZE as int) <= v < (layout.bss_end as int) / (PAGE_SIZE as int)
                ==> r.page_table.translate_spec(v) == Some((v, (((R + W) as u8) | V))),
            forall|v: int| (layout.kernel_end as int) / (PAGE_SIZE as int) <= v < (layout.memory_end as int) / (PAGE_SIZE as int)
                ==> r.page_table.translate_spec(v) == Some((v, (((R + W) as u8) | V))),
            // completeness: nothing else is mapped
            forall|v: int| 0 <= v < VPN_LIMIT && v != TRAMPOLINE_VPN as int
                && !((layout.text_start as int) / (PAGE_SIZE as int) <= v
                    < (layout.text_end as int) / (PAGE_SIZE as int))
                && !((layout.rodata_start as int) / (PAGE_SIZE as int) <= v
                    < (layout.rodata_end as int) / (PAGE_SIZE as int))
                && !((layout.data_start as int) / (PAGE_SIZE as int) <= v
                    < (layout.data_end as int) / (PAGE_SIZE as int))
                && !((layout.bss_start as int) / (PAGE_SIZE as int) <= v
                    < (layout.bss_end as int) / (PAGE_SIZE as int))
                && !((layout.kernel_end as int) / (PAGE_SIZE as int) <= v
                    < (layout.memory_end as int) / (PAGE_SIZE as int))
                ==> r.page_table.translate_spec(v) is None,
    {
        let mut ms = MemorySet::new(fa);
        let ghost ms_new = ms;
        ms.map_trampoline(PhysAddr(layout.trampoline_pa).ppn(), fa);
        proof {
            assert(TRAMPOLINE_VPN < VPN_LIMIT);
            assert forall|v: int| 0 <= v < VPN_LIMIT && v != TRAMPOLINE_VPN as int
                implies ms.page_table.translate_spec(v) is None by {
                assert(ms.page_table.entry_at(v) == ms_new.page_table.entry_at(v));
                assert(ms_new.page_table.translate_spec(v) is None);
            };
            assert((layout.memory_end as int) / (PAGE_SIZE as int) <= TRAMPOLINE_VPN as int) by {
                vstd::arithmetic::div_mod::lemma_div_is_ordered(
                    layout.memory_end as int, TRAMPOLINE as int, PAGE_SIZE as int);
            };
        }
        proof {
            let p = PAGE_SIZE as int;
            lemma_aligned_lt_div(layout.text_end as int, layout.rodata_start as int, p);
            lemma_aligned_lt_div(layout.rodata_end as int, layout.data_start as int, p);
            lemma_aligned_lt_div(layout.data_end as int, layout.bss_start as int, p);
            lemma_aligned_lt_div(layout.bss_end as int, layout.kernel_end as int, p);
            lemma_aligned_lt_div(layout.text_start as int, layout.text_end as int, p);
            lemma_aligned_lt_div(layout.rodata_start as int, layout.rodata_end as int, p);
            lemma_aligned_lt_div(layout.data_start as int, layout.data_end as int, p);
            lemma_aligned_lt_div(layout.bss_start as int, layout.bss_end as int, p);
            lemma_aligned_lt_div(layout.kernel_end as int, layout.memory_end as int, p);
            assert(TRAMPOLINE == 0x7FFFFFF000u64);
            assert((layout.memory_end as int) / p < TRAMPOLINE_VPN as int) by (nonlinear_arith)
                requires
                    p == 4096,
                    layout.memory_end as int % p == 0,
                    layout.memory_end < 0x7FFFFFF000u64,
                    TRAMPOLINE_VPN == 0x7FFFFFFu64;
            lemma_block_ordered((layout.text_start as int) / p, (layout.text_end as int) / p);
            lemma_block_ordered((layout.text_end as int) / p, (layout.rodata_start as int) / p);
            lemma_block_ordered((layout.rodata_start as int) / p, (layout.rodata_end as int) / p);
            lemma_block_ordered((layout.rodata_end as int) / p, (layout.data_start as int) / p);
            lemma_block_ordered((layout.data_start as int) / p, (layout.data_end as int) / p);
            lemma_block_ordered((layout.data_end as int) / p, (layout.bss_start as int) / p);
            lemma_block_ordered((layout.bss_start as int) / p, (layout.bss_end as int) / p);
            lemma_block_ordered((layout.bss_end as int) / p, (layout.kernel_end as int) / p);
            lemma_block_ordered((layout.kernel_end as int) / p, (layout.memory_end as int) / p);
        }
        let ghost p = PAGE_SIZE as int;
        let ghost t0 = (layout.text_start as int) / p;
        let ghost t1 = (layout.text_end as int) / p;
        let ghost r0 = (layout.rodata_start as int) / p;
        let ghost r1 = (layout.rodata_end as int) / p;
        let ghost d0 = (layout.data_start as int) / p;
        let ghost d1 = (layout.data_end as int) / p;
        let ghost b0 = (layout.bss_start as int) / p;
        let ghost b1 = (layout.bss_end as int) / p;
        let ghost k1 = (layout.kernel_end as int) / p;
        let ghost m1 = (layout.memory_end as int) / p;
        let ghost ms1 = ms;
        ms.map_identity_range(layout.text_start, layout.text_end, R + X, fa);
        proof {
            lemma_identity_tail_unmapped(ms1, ms, t0, t1);
        }
        let ghost ms2 = ms;
        ms.map_identity_range(layout.rodata_start, layout.rodata_end, R, fa);
        proof {
            lemma_identity_tail_unmapped(ms2, ms, r0, r1);
            lemma_range_translations_kept(ms2, ms, t0, t1, (((R + X) as u8) | V), r0, r1);
        }
        let ghost ms3 = ms;
        ms.map_identity_range(layout.data_start, layout.data_end, R + W, fa);
        proof {
            lemma_identity_tail_unmapped(ms3, ms, d0, d1);
            lemma_range_translations_kept(ms3, ms, t0, t1, (((R + X) as u8) | V), d0, d1);
            lemma_range_translations_kept(ms3, ms, r0, r1, (R | V), d0, d1);
        }
        let ghost ms4 = ms;
        ms.map_identity_range(layout.bss_start, layout.bss_end, R + W, fa);
        proof {
            lemma_identity_tail_unmapped(ms4, ms, b0, b1);
            lemma_range_translations_kept(ms4, ms, t0, t1, (((R + X) as u8) | V), b0, b1);
            lemma_range_translations_kept(ms4, ms, r0, r1, (R | V), b0, b1);
            lemma_range_translations_kept(ms4, ms, d0, d1, (((R + W) as u8) | V), b0, b1);
        }
        let ghost ms5 = ms;
        ms.map_identity_range(layout.kernel_end, layout.memory_end, R + W, fa);
        proof {
            lemma_range_translations_kept(ms5, ms, t0, t1, (((R + X) as u8) | V), k1, m1);
            lemma_range_translations_kept(ms5, ms, r0, r1, (R | V), k1, m1);
            lemma_range_translations_kept(ms5, ms, d0, d1, (((R + W) as u8) | V), k1, m1);
            lemma_range_translations_kept(ms5, ms, b0, b1, (((R + W) as u8) | V), k1, m1);
            assert(ms.page_table.translate_spec(TRAMPOLINE_VPN as int)
                == Some((layout.trampoline_pa as int / (PAGE_SIZE as int), (R | X | V) as u8)));
            // completeness: a page in none of the five ranges (and not the
            // trampoline) is still unmapped, by chaining each stage's
            // untouched-entries guarantee back to the empty space
            assert forall|v: int| 0 <= v < VPN_LIMIT && v != TRAMPOLINE_VPN as int
                && !(t0 <= v < t1) && !(r0 <= v < r1) && !(d0 <= v < d1)
                && !(b0 <= v < b1) && !(k1 <= v < m1)
                implies ms.page_table.translate_spec(v) is None by {
                assert(ms.page_table.entry_at(v) == ms5.page_table.entry_at(v));
                assert(ms5.page_table.entry_at(v) == ms4.page_table.entry_at(v));
                assert(ms4.page_table.entry_at(v) == ms3.page_table.entry_at(v));
                assert(ms3.page_table.entry_at(v) == ms2.page_table.entry_at(v));
                assert(ms2.page_table.entry_at(v) == ms1.page_table.entry_at(v));
                assert(ms1.page_table.translate_spec(v) is None);
            };
        }
        ms
    }
}

/// Division by the block size preserves the order of page numbers.
proof fn lemma_block_ordered(a: int, b: int)
    requires
        a <= b,
    ensures
        a / 512 <= b / 512,
{
    vstd::arithmetic::div_mod::lemma_div_is_ordered(a, b, 512);
}

/// Division by the page size preserves the order of addresses.
proof fn lemma_aligned_lt_div(a: int, b: int, p: int)
    requires
        0 <= a <= b,
        p == 4096,
    ensures
        0 <= a / p <= b / p,
{
    vstd::arithmetic::div_mod::lemma_div_is_ordered(0, a, p);
    vstd::arithmetic::div_mod::lemma_div_is_ordered(a, b, p);
}

/// After an identity-map of `[s, e)`, the pages past `e` (but for the
/// trampoline) stay unmapped when they were before.
proof fn lemma_identity_tail_unmapped(pre: MemorySet, post: MemorySet, s: int, e: int)
    requires
        0 <= e,
        forall|v: int| 0 <= v < VPN_LIMIT && !(s <= v < e)
            ==> #[trigger] post.page_table.entry_at(v) == pre.page_table.entry_at(v),
        forall|v: int| e <= v < VPN_LIMIT && v != TRAMPOLINE_VPN as int
            ==> pre.page_table.translate_spec(v) is None,
    ensures
        forall|v: int| e <= v < VPN_LIMIT && v != TRAMPOLINE_VPN as int
            ==> post.page_table.translate_spec(v) is None,
{
    assert forall|v: int| e <= v < VPN_LIMIT && v != TRAMPOLINE_VPN as int
        implies post.page_table.translate_spec(v) is None by {
        assert(post.page_table.entry_at(v) == pre.page_table.entry_at(v));
        assert(pre.page_table.translate_spec(v) is None);
    };
}

/// Translations of a range stay unchanged across an update confined to a
/// window of pages that were unmapped before the update.
proof fn lemma_range_translations_kept(
    pre: MemorySet,
    post: MemorySet,
    s: int,
    e: int,
    fl: u8,
    ws: int,
    we: int,
)
    requires
        0 <= s,
        e <= VPN_LIMIT,
        forall|v: int| s <= v < e
            ==> pre.page_table.translate_spec(v) == Some((v, fl)),
        forall|v: int| ws <= v < we ==> pre.page_table.translate_spec(v) is None,
        forall|v: int| 0 <= v < VPN_LIMIT && !(ws <= v < we)
            ==> #[trigger] post.page_table.entry_at(v) == pre.page_table.entry_at(v),
    ensures
        forall|v: int| s <= v < e
            ==> post.page_table.translate_spec(v) == Some((v, fl)),
{
    assert forall|v: int| s <= v < e
        implies post.page_table.translate_spec(v) == Some((v, fl)) by {
        assert(pre.page_table.translate_spec(v) == Some((v, fl)));
        assert(!(ws <= v < we));
        assert(post.page_table.entry_at(v) == pre.page_table.entry_at(v));
    };
}


/// Total pages of the first `n` segments.
pub open spec fn seg_pages_upto(segs: Seq<MemorySegment>, n: int) -> int
    decreases n,
{
    if n <= 0 {
        0
    } else {
        seg_pages_upto(segs, n - 1) + segs[n - 1].len_pages()
    }
}

/// No prefix of well-formed segments has a negative page count.
pub proof fn lemma_seg_pages_nonneg(segs: Seq<MemorySegment>, n: int)
    requires
        0 <= n <= segs.len(),
        forall|i: int| 0 <= i < segs.len() ==> (#[trigger] segs[i]).wf(),
    ensures
        0 <= seg_pages_upto(segs, n),
    decreases n,
{
    if n > 0 {
        lemma_seg_pages_nonneg(segs, n - 1);
    }
}

/// Segment page counts accumulate.
pub proof fn lemma_seg_pages_upto_bounds(segs: Seq<MemorySegment>, m: int, n: int)
    requires
        0 <= m <= n <= segs.len(),
        forall|i: int| 0 <= i < segs.len() ==> (#[trigger] segs[i]).wf(),
    ensures
        0 <= seg_pages_upto(segs, m) <= seg_pages_upto(segs, n),
    decreases n - m,
{
    lemma_seg_pages_nonneg(segs, m);
    if n > m {
        lemma_seg_pages_upto_bounds(segs, m, n - 1);
    }
}

/// A flag byte with V already set is unchanged by setting V again.
proof fn lemma_flag_or_self(f: u8)
    requires
        f & V != 0,
    ensures
        (f | V) == f,
{
    assert(f & 1u8 != 0 ==> (f | 1u8) == f) by (bit_vector);
    assert(V == 1u8);
}

/// A loadable header of a valid image starts at or above the highest end
/// page of every earlier loadable header.
proof fn lemma_load_start_above_max_end(b: Seq<u8>, n: int)
    requires
        elf_wf(b),
        0 <= n < elf_phnum(b),
        ph_is_load(b, n),
    ensures
        elf_max_end_upto(b, n) <= ph_start_vpn(b, n),
    decreases n,
{
    if n > 0 {
        if ph_is_load(b, n - 1) {
            assert(ph_end_vpn(b, n - 1) <= ph_start_vpn(b, n));
        }
        lemma_upto_le(b, n - 1, n);
    }
}

/// The running maximum of end pages only sees ends of earlier loadable
/// headers, each of which stays at or below the start of header `n`.
proof fn lemma_upto_le(b: Seq<u8>, m: int, n: int)
    requires
        elf_wf(b),
        0 <= m <= n < elf_phnum(b),
        ph_is_load(b, n),
    ensures
        elf_max_end_upto(b, m) <= ph_start_vpn(b, n),
    decreases m,
{
    if m > 0 {
        lemma_upto_le(b, m - 1, n);
        if ph_is_load(b, m - 1) {
            assert(ph_end_vpn(b, m - 1) <= ph_start_vpn(b, n));
        }
    } else {
        assert(elf_max_end_upto(b, 0) == 0);
        assert(ph_start_vpn(b, n) >= 0) by {
            vstd::arithmetic::div_mod::lemma_div_is_ordered(
                0, ph_vaddr(b, n), PAGE_SIZE as int);
        };
    }
}

/// A page-aligned range of `memsz` bytes spans `memsz / PAGE + 1` pages,
/// which hold at least `filesz <= memsz` bytes.
proof fn lemma_aligned_range_capacity(vaddr: int, memsz: int, filesz: int)
    requires
        vaddr % (PAGE_SIZE as int) == 0,
        0 <= vaddr,
        0 <= filesz <= memsz,
    ensures
        (vaddr + memsz) / (PAGE_SIZE as int) + 1 - vaddr / (PAGE_SIZE as int)
            == memsz / (PAGE_SIZE as int) + 1,
        filesz <= (memsz / (PAGE_SIZE as int) + 1) * (PAGE_SIZE as int),
{
    let p = PAGE_SIZE as int;
    assert((vaddr + memsz) / p == vaddr / p + memsz / p) by (nonlinear_arith)
        requires p == 4096, vaddr % p == 0, 0 <= vaddr, 0 <= memsz;
    assert(memsz < (memsz / p + 1) * p) by (nonlinear_arith)
        requires p == 4096, 0 <= memsz;
}

/// When a page outside every segment changes in the page table and all
/// other entries keep their value, every segment stays mapped.
proof fn lemma_segments_still_mapped(pre: MemorySet, post: MemorySet, changed: int)
    requires
        pre.wf(),
        post.segments@ == pre.segments@,
        pre.page_table.translate_spec(changed) is None,
        forall|v: int| 0 <= v < VPN_LIMIT && v != changed
            ==> post.page_table.entry_at(v) == pre.page_table.entry_at(v),
    ensures
        forall|i: int| 0 <= i < post.segments@.len() ==> post.seg_mapped(i),
{
    assert forall|i: int| 0 <= i < post.segments@.len() implies post.seg_mapped(i) by {
        let s = pre.segments[i];
        assert(pre.seg_mapped(i));
        assert forall|v: int| s.contains_vpn(v)
            implies #[trigger] post.page_table.translate_spec(v)
                == Some((s.frame_ppn(v), s.flags)) by {
            assert(pre.page_table.translate_spec(v) == Some((s.frame_ppn(v), s.flags)));
            assert(v != changed);
            assert(0 <= v < VPN_LIMIT);
            assert(post.page_table.entry_at(v) == pre.page_table.entry_at(v));
        };
    };
}

} // verus!
