//! A minimal 64-bit little-endian ELF reader: the header fields and the
//! loadable program headers that address-space construction consumes.
//!
//! Validity asks only what the loader relies on: the magic, 64-bit
//! little-endian class, 56-byte program headers inside the image, and for
//! every loadable header a page-aligned virtual address, file data inside
//! the image, file size at most memory size, an image kept below the
//! fixed user ceiling, and page-disjoint ranges in ascending order.

use vstd::prelude::*;
use crate::config::{PAGE_SIZE, TRAP_CONTEXT, USER_STACK_SIZE};

verus! {

/// Highest virtual byte a loadable header may touch: leaves room for the
/// guard page, the user stack, and the two fixed pages at the top.
pub const MAX_USER_VA: u64 = TRAP_CONTEXT - USER_STACK_SIZE - 16 * PAGE_SIZE;

/// The little-endian 16-bit value at `off`.
pub open spec fn le_u16(b: Seq<u8>, off: int) -> int {
    b[off] + b[off + 1] * 0x100
}

/// The little-endian 32-bit value at `off`.
pub open spec fn le_u32(b: Seq<u8>, off: int) -> int {
    b[off] + b[off + 1] * 0x100 + b[off + 2] * 0x10000 + b[off + 3] * 0x1000000
}

/// The little-endian 64-bit value at `off`.
pub open spec fn le_u64(b: Seq<u8>, off: int) -> int {
    b[off] + b[off + 1] * 0x100 + b[off + 2] * 0x10000 + b[off + 3] * 0x1000000
        + b[off + 4] * 0x100000000 + b[off + 5] * 0x10000000000
        + b[off + 6] * 0x1000000000000 + b[off + 7] * 0x100000000000000
}

/// The program entry address.
pub open spec fn elf_entry(b: Seq<u8>) -> int {
    le_u64(b, 24)
}

/// The file offset of the program-header table.
pub open spec fn elf_phoff(b: Seq<u8>) -> int {
    le_u64(b, 32)
}

/// The number of program headers.
pub open spec fn elf_phnum(b: Seq<u8>) -> int {
    le_u16(b, 56)
}

/// The file offset of program header `i`.
pub open spec fn ph_off(b: Seq<u8>, i: int) -> int {
    elf_phoff(b) + i * 56
}

pub open spec fn ph_type(b: Seq<u8>, i: int) -> int {
    le_u32(b, ph_off(b, i))
}

pub open spec fn ph_flags(b: Seq<u8>, i: int) -> int {
    le_u32(b, ph_off(b, i) + 4)
}

pub open spec fn ph_offset(b: Seq<u8>, i: int) -> int {
    le_u64(b, ph_off(b, i) + 8)
}

pub open spec fn ph_vaddr(b: Seq<u8>, i: int) -> int {
    le_u64(b, ph_off(b, i) + 16)
}

pub open spec fn ph_filesz(b: Seq<u8>, i: int) -> int {
    le_u64(b, ph_off(b, i) + 32)
}

pub open spec fn ph_memsz(b: Seq<u8>, i: int) -> int {
    le_u64(b, ph_off(b, i) + 40)
}

/// Whether program header `i` asks to be loaded (PT_LOAD).
pub open spec fn ph_is_load(b: Seq<u8>, i: int) -> bool {
    ph_type(b, i) == 1
}

/// First virtual page of loadable header `i`.
pub open spec fn ph_start_vpn(b: Seq<u8>, i: int) -> int {
    ph_vaddr(b, i) / (PAGE_SIZE as int)
}

/// One past the last virtual page of loadable header `i`.
pub open spec fn ph_end_vpn(b: Seq<u8>, i: int) -> int {
    (ph_vaddr(b, i) + ph_memsz(b, i)) / (PAGE_SIZE as int) + 1
}

/// Everything address-space construction relies on.
pub open spec fn elf_wf(b: Seq<u8>) -> bool {
    &&& b.len() >= 64
    &&& b[0] == 0x7f && b[1] == 0x45 && b[2] == 0x4c && b[3] == 0x46
    &&& b[4] == 2 && b[5] == 1
    &&& le_u16(b, 54) == 56
    &&& elf_phoff(b) + elf_phnum(b) * 56 <= b.len()
    &&& forall|i: int| 0 <= i < elf_phnum(b) && ph_is_load(b, i) ==> {
        &&& #[trigger] ph_vaddr(b, i) % (PAGE_SIZE as int) == 0
        &&& ph_filesz(b, i) <= ph_memsz(b, i)
        &&& ph_offset(b, i) + ph_filesz(b, i) <= b.len()
        &&& ph_vaddr(b, i) + ph_memsz(b, i) < MAX_USER_VA
    }
    &&& forall|i: int, j: int|
        0 <= i < j < elf_phnum(b) && #[trigger] ph_is_load(b, i) && #[trigger] ph_is_load(b, j)
            ==> ph_end_vpn(b, i) <= ph_start_vpn(b, j)
}

/// Total pages the first `n` program headers ask to have mapped.
pub open spec fn elf_pages_upto(b: Seq<u8>, n: int) -> int
    decreases n,
{
    if n <= 0 {
        0
    } else {
        elf_pages_upto(b, n - 1) + if ph_is_load(b, n - 1) {
            ph_end_vpn(b, n - 1) - ph_start_vpn(b, n - 1)
        } else {
            0
        }
    }
}

/// The highest end page over the first `n` loadable headers.
pub open spec fn elf_max_end_upto(b: Seq<u8>, n: int) -> int
    decreases n,
{
    if n <= 0 {
        0
    } else {
        let m = elf_max_end_upto(b, n - 1);
        if ph_is_load(b, n - 1) && ph_end_vpn(b, n - 1) > m {
            ph_end_vpn(b, n - 1)
        } else {
            m
        }
    }
}

/// Page counts accumulate: later prefixes ask for at least as many pages,
/// and no prefix asks for a negative number.
pub proof fn lemma_pages_upto_bounds(b: Seq<u8>, m: int, n: int)
    requires
        elf_wf(b),
        0 <= m <= n <= elf_phnum(b),
    ensures
        0 <= elf_pages_upto(b, m) <= elf_pages_upto(b, n),
    decreases n - m, n,
{
    if n == m {
        lemma_pages_upto_nonneg(b, m);
    } else {
        lemma_pages_upto_bounds(b, m, n - 1);
        if ph_is_load(b, n - 1) {
            vstd::arithmetic::div_mod::lemma_div_is_ordered(
                ph_vaddr(b, n - 1),
                ph_vaddr(b, n - 1) + ph_memsz(b, n - 1),
                PAGE_SIZE as int,
            );
        }
    }
}

/// No prefix of a valid image asks for a negative number of pages.
proof fn lemma_pages_upto_nonneg(b: Seq<u8>, n: int)
    requires
        elf_wf(b),
        0 <= n <= elf_phnum(b),
    ensures
        0 <= elf_pages_upto(b, n),
    decreases n,
{
    if n > 0 {
        lemma_pages_upto_nonneg(b, n - 1);
        if ph_is_load(b, n - 1) {
            vstd::arithmetic::div_mod::lemma_div_is_ordered(
                ph_vaddr(b, n - 1),
                ph_vaddr(b, n - 1) + ph_memsz(b, n - 1),
                PAGE_SIZE as int,
            );
        }
    }
}

/// Every loadable range of a valid image ends below the user ceiling's page.
pub proof fn lemma_max_end_bound(b: Seq<u8>, n: int)
    requires
        elf_wf(b),
        n <= elf_phnum(b),
    ensures
        0 <= elf_max_end_upto(b, n) <= MAX_USER_VA as int / (PAGE_SIZE as int) + 1,
    decreases n,
{
    if n > 0 {
        lemma_max_end_bound(b, n - 1);
        if ph_is_load(b, n - 1) {
            assert(ph_vaddr(b, n - 1) + ph_memsz(b, n - 1) < MAX_USER_VA);
            assert(ph_end_vpn(b, n - 1) <= MAX_USER_VA as int / (PAGE_SIZE as int) + 1) by {
                vstd::arithmetic::div_mod::lemma_div_is_ordered(
                    ph_vaddr(b, n - 1) + ph_memsz(b, n - 1),
                    MAX_USER_VA as int,
                    PAGE_SIZE as int,
                );
            };
        }
    }
}

/// One program header, already decoded.
#[derive(Copy, Clone, Debug, PartialEq, Eq, Structural)]
pub struct ProgramHeader {
    pub ptype: u32,
    pub flags: u32,
    pub offset: u64,
    pub vaddr: u64,
    pub file_size: u64,
    pub mem_size: u64,
}

impl ProgramHeader {
    /// Whether this header asks to be loaded.
    pub fn is_load(&self) -> (r: bool)
        ensures
            r == (self.ptype == 1),
    {
        self.ptype == 1
    }
}

/// A decoded ELF image: the entry address and all program headers.
pub struct ElfFile {
    pub entry: u64,
    pub program_headers: Vec<ProgramHeader>,
}

impl ElfFile {
    /// The decoded headers agree with the raw image `b`.
    pub open spec fn matches(self, b: Seq<u8>) -> bool {
        &&& self.entry == elf_entry(b)
        &&& self.program_headers.len() == elf_phnum(b)
        &&& forall|i: int| 0 <= i < self.program_headers.len() ==> {
            &&& (#[trigger] self.program_headers[i]).ptype == ph_type(b, i)
            &&& self.program_headers[i].flags == ph_flags(b, i)
            &&& self.program_headers[i].offset == ph_offset(b, i)
            &&& self.program_headers[i].vaddr == ph_vaddr(b, i)
            &&& self.program_headers[i].file_size == ph_filesz(b, i)
            &&& self.program_headers[i].mem_size == ph_memsz(b, i)
        }
    }
}

pub(crate) fn read_u16(data: &[u8], off: usize) -> (r: u16)
    requires
        off + 2 <= data@.len(),
    ensures
        r as int == le_u16(data@, off as int),
{
    data[off] as u16 + data[off + 1] as u16 * 0x100
}

pub(crate) fn read_u32(data: &[u8], off: usize) -> (r: u32)
    requires
        off + 4 <= data@.len(),
    ensures
        r as int == le_u32(data@, off as int),
{
    data[off] as u32 + data[off + 1] as u32 * 0x100 + data[off + 2] as u32 * 0x10000
        + data[off + 3] as u32 * 0x1000000
}

pub(crate) fn read_u64(data: &[u8], off: usize) -> (r: u64)
    requires
        off + 8 <= data@.len(),
    ensures
        r as int == le_u64(data@, off as int),
{
    data[off] as u64 + data[off + 1] as u64 * 0x100 + data[off + 2] as u64 * 0x10000
        + data[off + 3] as u64 * 0x1000000 + data[off + 4] as u64 * 0x100000000
        + data[off + 5] as u64 * 0x10000000000 + data[off + 6] as u64 * 0x1000000000000
        + data[off + 7] as u64 * 0x100000000000000
}

/// Decode and check an ELF image: `Some` exactly on valid images, with
/// every header decoded faithfully.
#[verifier::rlimit(60)]
#[verifier::spinoff_prover]
pub fn parse_elf(data: &[u8]) -> (r: Option<ElfFile>)
    ensures
        r is Some <==> elf_wf(data@),
        match r {
            Some(elf) => elf.matches(data@),
            None => true,
        },
{
    let ghost b = data@;
    let len: usize = data.len();
    if len < 64 {
        return None;
    }
    if !(data[0] == 0x7f && data[1] == 0x45 && data[2] == 0x4c && data[3] == 0x46) {
        return None;
    }
    if !(data[4] == 2 && data[5] == 1) {
        return None;
    }
    let phentsize = read_u16(data, 54);
    if phentsize != 56 {
        return None;
    }
    let phoff = read_u64(data, 32);
    let phnum = read_u16(data, 56) as u64;
    if phoff > len as u64 {
        return None;
    }
    if phnum * 56 > len as u64 - phoff {
        return None;
    }
    let entry = read_u64(data, 24);
    let mut headers: Vec<ProgramHeader> = Vec::new();
    let mut i: u64 = 0;
    while i < phnum
        invariant
            i <= phnum,
            headers.len() == i,
            phnum == elf_phnum(b),
            phoff == elf_phoff(b),
            b == data@,
            b.len() == len,
            elf_phoff(b) + elf_phnum(b) * 56 <= len,
            forall|j: int| 0 <= j < i ==> {
                &&& (#[trigger] headers[j]).ptype == ph_type(b, j)
                &&& headers[j].flags == ph_flags(b, j)
                &&& headers[j].offset == ph_offset(b, j)
                &&& headers[j].vaddr == ph_vaddr(b, j)
                &&& headers[j].file_size == ph_filesz(b, j)
                &&& headers[j].mem_size == ph_memsz(b, j)
            },
            forall|j: int| 0 <= j < i && ph_is_load(b, j) ==> {
                &&& #[trigger] ph_vaddr(b, j) % (PAGE_SIZE as int) == 0
                &&& ph_filesz(b, j) <= ph_memsz(b, j)
                &&& ph_offset(b, j) + ph_filesz(b, j) <= b.len()
                &&& ph_vaddr(b, j) + ph_memsz(b, j) < MAX_USER_VA
            },
        decreases phnum - i,
    {
        proof {
            assert(elf_phoff(b) + i * 56 + 56 <= elf_phoff(b) + elf_phnum(b) * 56)
                by (nonlinear_arith)
                requires i < elf_phnum(b);
        }
        let base = (phoff + i * 56) as usize;
        let ptype = read_u32(data, base);
        let flags = read_u32(data, base + 4);
        let offset = read_u64(data, base + 8);
        let vaddr = read_u64(data, base + 16);
        let file_size = read_u64(data, base + 32);
        let mem_size = read_u64(data, base + 40);
        proof {
            assert(base as int == ph_off(b, i as int));
            assert(ptype as int == ph_type(b, i as int));
            assert(flags as int == ph_flags(b, i as int));
            assert(offset as int == ph_offset(b, i as int));
            assert(vaddr as int == ph_vaddr(b, i as int));
            assert(file_size as int == ph_filesz(b, i as int));
            assert(mem_size as int == ph_memsz(b, i as int));
        }
        if ptype == 1 {
            if vaddr % PAGE_SIZE != 0 {
                return None;
            }
            if file_size > mem_size {
                return None;
            }
            if offset > len as u64 || file_size > len as u64 - offset {
                return None;
            }
            if vaddr >= MAX_USER_VA || mem_size >= MAX_USER_VA - vaddr {
                return None;
            }
        }
        headers.push(ProgramHeader { ptype, flags, offset, vaddr, file_size, mem_size });
        proof {
            assert forall|j: int| 0 <= j < i + 1 && ph_is_load(b, j) implies {
                &&& ph_vaddr(b, j) % (PAGE_SIZE as int) == 0
                &&& ph_filesz(b, j) <= ph_memsz(b, j)
                &&& ph_offset(b, j) + ph_filesz(b, j) <= b.len()
                &&& ph_vaddr(b, j) + ph_memsz(b, j) < MAX_USER_VA
            } by {
                if j == i as int {
                    assert(ph_type(b, j) == ptype as int);
                    assert(ptype == 1);
                    assert((vaddr as int) % (PAGE_SIZE as int) == 0);
                    assert(file_size <= mem_size);
                    assert((offset as int) + (file_size as int) <= len as int);
                    assert((vaddr as int) + (mem_size as int) < MAX_USER_VA);
                }
            };
        }
        i = i + 1;
    }
    // ascending, page-disjoint loadable ranges
    let mut x: usize = 0;
    while x < headers.len()
        invariant
            headers.len() == phnum,
            phnum == elf_phnum(b),
            b == data@,
            x <= headers.len(),
            forall|j: int| 0 <= j < phnum ==> {
                &&& (#[trigger] headers[j]).ptype == ph_type(b, j)
                &&& headers[j].vaddr == ph_vaddr(b, j)
                &&& headers[j].mem_size == ph_memsz(b, j)
            },
            forall|j: int| 0 <= j < phnum && ph_is_load(b, j)
                ==> #[trigger] ph_vaddr(b, j) + ph_memsz(b, j) < MAX_USER_VA,
            forall|p: int, q: int|
                0 <= p < x && p < q < phnum && #[trigger] ph_is_load(b, p)
                    && #[trigger] ph_is_load(b, q)
                    ==> ph_end_vpn(b, p) <= ph_start_vpn(b, q),
        decreases headers.len() - x,
    {
        let mut y: usize = x + 1;
        while y < headers.len()
            invariant
                headers.len() == phnum,
                phnum == elf_phnum(b),
                b == data@,
                x < y || y == x + 1,
                x + 1 <= y <= headers.len(),
                x < headers.len(),
                forall|j: int| 0 <= j < phnum ==> {
                    &&& (#[trigger] headers[j]).ptype == ph_type(b, j)
                    &&& headers[j].vaddr == ph_vaddr(b, j)
                    &&& headers[j].mem_size == ph_memsz(b, j)
                },
                forall|j: int| 0 <= j < phnum && ph_is_load(b, j)
                    ==> #[trigger] ph_vaddr(b, j) + ph_memsz(b, j) < MAX_USER_VA,
                forall|q: int|
                    x < q < y && ph_is_load(b, x as int) && #[trigger] ph_is_load(b, q)
                        ==> ph_end_vpn(b, x as int) <= ph_start_vpn(b, q),
            decreases headers.len() - y,
        {
            let hx = &headers[x];
            let hy = &headers[y];
            if hx.ptype == 1 && hy.ptype == 1 {
                proof {
                    assert(ph_is_load(b, x as int));
                    assert(ph_is_load(b, y as int));
                }
                let end_x = (hx.vaddr + hx.mem_size) / PAGE_SIZE + 1;
                let start_y = hy.vaddr / PAGE_SIZE;
                if end_x > start_y {
                    proof {
                        assert(end_x as int == ph_end_vpn(b, x as int));
                        assert(start_y as int == ph_start_vpn(b, y as int));
                    }
                    return None;
                }
            }
            y = y + 1;
        }
        x = x + 1;
    }
    Some(ElfFile { entry, program_headers: headers })
}

} // verus!
