//! A memory segment: a half-open range of virtual pages, a permission
//! set, and one owned data frame per page.
//!
//! The segment records the bytes of its frames, so that copying a buffer
//! in and reading it back can be stated exactly: `copy_data` is byte-exact
//! within its range and pads nothing; pages start out zeroed.

use vstd::prelude::*;
use crate::addr::PhysPageNum;
use crate::config::{PAGE_SIZE, VPN_LIMIT};
use crate::frame::FrameAllocator;
use crate::page_table::{SegFlags, V};

verus! {

/// One owned physical frame and the bytes stored in it.
pub struct Frame {
    /// The physical page backing this frame.
    pub ppn: PhysPageNum,
    /// The 4096 bytes of the page.
    pub bytes: Vec<u8>,
}

impl Frame {
    pub open spec fn wf(self) -> bool {
        self.bytes.len() == PAGE_SIZE
    }
}

/// A mapped range of virtual pages with one data frame per page.
pub struct MemorySegment {
    /// First virtual page of the range.
    pub start_vpn: u64,
    /// One past the last virtual page of the range.
    pub end_vpn: u64,
    /// The leaf flags every page of the range is mapped with (V included).
    pub flags: SegFlags,
    /// The owned frames; `frames[k]` backs page `start_vpn + k`.
    pub frames: Vec<Frame>,
}

impl MemorySegment {
    pub open spec fn wf(self) -> bool {
        &&& self.start_vpn <= self.end_vpn <= VPN_LIMIT
        &&& self.frames.len() == self.end_vpn - self.start_vpn
        &&& forall|k: int| 0 <= k < self.frames.len() ==> (#[trigger] self.frames[k]).wf()
        &&& self.flags & V != 0
    }

    /// Number of pages in the range.
    pub open spec fn len_pages(self) -> int {
        self.end_vpn - self.start_vpn
    }

    /// Number of bytes in the range.
    pub open spec fn len_bytes(self) -> int {
        self.len_pages() * (PAGE_SIZE as int)
    }

    /// Whether `v` lies in the range.
    pub open spec fn contains_vpn(self, v: int) -> bool {
        self.start_vpn <= v < self.end_vpn
    }

    /// The physical page recorded for virtual page `v` of the range.
    pub open spec fn frame_ppn(self, v: int) -> int {
        self.frames[v - self.start_vpn].ppn.0 as int
    }

    /// The byte stored at offset `off` from the start of the range.
    pub open spec fn byte_at(self, off: int) -> u8 {
        self.frames[off / (PAGE_SIZE as int)].bytes[off % (PAGE_SIZE as int)]
    }

    /// A fresh segment over `[start_vpn, end_vpn)` with flags `perm | V`,
    /// every page backed by a zeroed frame taken from `fa`.  Exhausting
    /// the allocator here is kernel-fatal and excluded by contract.
    pub fn new(start_vpn: u64, end_vpn: u64, perm: SegFlags, fa: &mut FrameAllocator) -> (r: Self)
        requires
            start_vpn <= end_vpn <= VPN_LIMIT,
            old(fa).wf(),
            old(fa).free_count() >= end_vpn - start_vpn,
        ensures
            final(fa).wf(),
            final(fa).start == old(fa).start,
            final(fa).end == old(fa).end,
            final(fa).free_count() == old(fa).free_count() - r.len_pages(),
            final(fa).free_set().subset_of(old(fa).free_set()),
            forall|q: int| old(fa).is_allocated(q) ==> final(fa).is_allocated(q),
            r.wf(),
            r.start_vpn == start_vpn,
            r.end_vpn == end_vpn,
            r.flags == perm | V,
            forall|off: int| 0 <= off < r.len_bytes() ==> r.byte_at(off) == 0,
            forall|k: int| 0 <= k < r.len_pages()
                ==> final(fa).is_allocated(#[trigger] r.frames[k].ppn.0 as int)
                    && old(fa).free_set().contains(r.frames[k].ppn.0 as int),
    {
        proof {
            let p = perm;
            assert((p | 1u8) & 1u8 != 0) by (bit_vector);
            assert(V == 1u8);
        }
        let flags = perm | V;
        let n: u64 = end_vpn - start_vpn;
        let mut frames: Vec<Frame> = Vec::new();
        let ghost fa0 = *fa;
        let mut k: u64 = 0;
        while k < n
            invariant
                k <= n,
                frames.len() == k,
                fa.wf(),
                fa.start == fa0.start,
                fa.end == fa0.end,
                fa.free_count() == fa0.free_count() - k,
                fa0.free_count() >= n,
                fa.free_set().subset_of(fa0.free_set()),
                forall|q: int| fa0.is_allocated(q) ==> fa.is_allocated(q),
                forall|j: int| 0 <= j < k ==> (#[trigger] frames[j]).wf(),
                forall|j: int| 0 <= j < k
                    ==> fa.is_allocated(#[trigger] frames[j].ppn.0 as int)
                        && fa0.free_set().contains(frames[j].ppn.0 as int),
                forall|j: int, b: int| 0 <= j < k && 0 <= b < PAGE_SIZE
                    ==> #[trigger] frames[j].bytes[b] == 0,
            decreases n - k,
        {
            let ppn = match fa.allocate() {
                Some(p) => p,
                None => {
                    proof {
                        assert(false);
                    }
                    PhysPageNum(0)
                },
            };
            let bytes = zero_page();
            frames.push(Frame { ppn, bytes });
            k = k + 1;
        }
        let r = MemorySegment { start_vpn, end_vpn, flags, frames };
        proof {
            assert forall|off: int| 0 <= off < r.len_bytes() implies r.byte_at(off) == 0 by {
                assert(0 <= off / (PAGE_SIZE as int) < r.len_pages()
                    && 0 <= off % (PAGE_SIZE as int) < PAGE_SIZE)
                    by (nonlinear_arith)
                    requires 0 <= off < r.len_pages() * (PAGE_SIZE as int), r.len_pages() >= 0;
            };
        }
        r
    }

    /// Overwrite the byte at offset `off` from the start of the range.
    pub fn set_byte(&mut self, off: u64, b: u8)
        requires
            old(self).wf(),
            off < old(self).len_bytes(),
        ensures
            final(self).wf(),
            final(self).start_vpn == old(self).start_vpn,
            final(self).end_vpn == old(self).end_vpn,
            final(self).flags == old(self).flags,
            final(self).byte_at(off as int) == b,
            forall|o: int| 0 <= o < old(self).len_bytes() && o != off as int
                ==> final(self).byte_at(o) == old(self).byte_at(o),
            forall|k: int| 0 <= k < old(self).frames.len()
                ==> final(self).frames[k].ppn == old(self).frames[k].ppn,
            final(self).frames.len() == old(self).frames.len(),
    {
        let ghost pre = *old(self);
        proof {
            let o = off as int;
            assert(0 <= o / (PAGE_SIZE as int) < pre.len_pages()
                && 0 <= o % (PAGE_SIZE as int) < PAGE_SIZE)
                by (nonlinear_arith)
                requires
                    0 <= o < pre.len_pages() * (PAGE_SIZE as int),
                    pre.len_pages() >= 0;
        }
        let k = (off / PAGE_SIZE) as usize;
        let j = (off % PAGE_SIZE) as usize;
        let ghost frames0 = self.frames@;
        let mut f = self.frames.remove(k);
        let ghost fbytes0 = f.bytes@;
        f.bytes.set(j, b);
        let ghost f_g = f;
        self.frames.insert(k, f);
        proof {
            assert(f_g.bytes@ =~= fbytes0.update(j as int, b));
            assert(self.frames@ =~= frames0.update(k as int, f_g));
            assert forall|o: int| 0 <= o < pre.len_bytes() && o != off as int
                implies self.byte_at(o) == pre.byte_at(o) by {
                assert(0 <= o / (PAGE_SIZE as int) < pre.len_pages()
                    && 0 <= o % (PAGE_SIZE as int) < PAGE_SIZE)
                    by (nonlinear_arith)
                    requires
                        0 <= o < pre.len_pages() * (PAGE_SIZE as int),
                        pre.len_pages() >= 0;
                if o / (PAGE_SIZE as int) == k as int {
                    assert(o % (PAGE_SIZE as int) != j as int) by (nonlinear_arith)
                        requires
                            o != off as int,
                            o / (PAGE_SIZE as int) == off as int / (PAGE_SIZE as int),
                            j as int == off as int % (PAGE_SIZE as int),
                            o >= 0,
                            off as int >= 0;
                }
            };
        }
    }

    /// Read the byte at offset `off` from the start of the range.
    pub fn read_byte(&self, off: u64) -> (r: u8)
        requires
            self.wf(),
            off < self.len_bytes(),
        ensures
            r == self.byte_at(off as int),
    {
        proof {
            let o = off as int;
            assert(0 <= o / (PAGE_SIZE as int) < self.len_pages()
                && 0 <= o % (PAGE_SIZE as int) < PAGE_SIZE)
                by (nonlinear_arith)
                requires
                    0 <= o < self.len_pages() * (PAGE_SIZE as int),
                    self.len_pages() >= 0;
        }
        let k = (off / PAGE_SIZE) as usize;
        let j = (off % PAGE_SIZE) as usize;
        self.frames[k].bytes[j]
    }


    /// All bytes of the range, first page first.
    pub fn flat_bytes(&self) -> (r: Vec<u8>)
        requires
            self.wf(),
            self.len_bytes() <= usize::MAX,
        ensures
            r@.len() == self.len_bytes(),
            forall|o: int| 0 <= o < r@.len() ==> r@[o] == self.byte_at(o),
    {
        let n = (self.end_vpn - self.start_vpn) * PAGE_SIZE;
        let mut out: Vec<u8> = Vec::new();
        let mut o: u64 = 0;
        while o < n
            invariant
                self.wf(),
                n == self.len_bytes(),
                o <= n,
                out@.len() == o,
                forall|j: int| 0 <= j < o ==> out@[j] == self.byte_at(j),
            decreases n - o,
        {
            let b = self.read_byte(o);
            out.push(b);
            o = o + 1;
        }
        out
    }

    /// Copy `data` into the segment starting at its first byte: byte `i`
    /// of `data` lands at offset `i`; every other byte is untouched.
    pub fn copy_data(&mut self, data: &[u8])
        requires
            old(self).wf(),
            data@.len() <= old(self).len_bytes(),
        ensures
            final(self).wf(),
            final(self).start_vpn == old(self).start_vpn,
            final(self).end_vpn == old(self).end_vpn,
            final(self).flags == old(self).flags,
            forall|i: int| 0 <= i < data@.len() ==> final(self).byte_at(i) == data@[i],
            forall|o: int| data@.len() <= o < old(self).len_bytes()
                ==> final(self).byte_at(o) == old(self).byte_at(o),
            forall|k: int| 0 <= k < old(self).frames.len()
                ==> final(self).frames[k].ppn == old(self).frames[k].ppn,
            final(self).frames.len() == old(self).frames.len(),
    {
        let ghost pre = *old(self);
        let mut i: usize = 0;
        while i < data.len()
            invariant
                i <= data@.len(),
                data@.len() <= pre.len_bytes(),
                self.wf(),
                self.start_vpn == pre.start_vpn,
                self.end_vpn == pre.end_vpn,
                self.flags == pre.flags,
                self.frames.len() == pre.frames.len(),
                forall|k: int| 0 <= k < pre.frames.len()
                    ==> self.frames[k].ppn == pre.frames[k].ppn,
                forall|o: int| 0 <= o < i ==> self.byte_at(o) == data@[o],
                forall|o: int| i <= o < pre.len_bytes() ==> self.byte_at(o) == pre.byte_at(o),
            decreases data@.len() - i,
        {
            let b = data[i];
            self.set_byte(i as u64, b);
            i = i + 1;
        }
    }
}

/// A zeroed page of bytes.
fn zero_page() -> (r: Vec<u8>)
    ensures
        r.len() == PAGE_SIZE,
        forall|j: int| 0 <= j < PAGE_SIZE ==> r@[j] == 0,
{
    let mut v: Vec<u8> = Vec::new();
    let mut i: usize = 0;
    while i < 4096
        invariant
            i == v.len(),
            i <= 4096,
            forall|j: int| 0 <= j < i ==> v@[j] == 0,
        decreases 4096 - i,
    {
        v.push(0);
        i = i + 1;
    }
    v
}

} // verus!
