use rusted_os::addr::{PhysAddr, PhysPageNum, VirtAddr, VirtPageNum};
use rusted_os::config::{PAGE_SIZE, TRAMPOLINE, TRAP_CONTEXT};
use rusted_os::context::TrapContext;
use rusted_os::elf::parse_elf;
use rusted_os::frame::FrameAllocator;
use rusted_os::memory_set::{MemorySet, TRAMPOLINE_VPN};
use rusted_os::page_table::{pte_flags, pte_new, pte_ppn, PageTable, R, U, V, W, X};

fn tiny_elf(data: &[u8]) -> Vec<u8> {
    // a minimal 64-bit little-endian image with one loadable header at
    // virtual address 0x1000, readable and executable, entry 0x1000
    let mut b = vec![0u8; 120 + data.len()];
    b[0] = 0x7f;
    b[1] = 0x45;
    b[2] = 0x4c;
    b[3] = 0x46;
    b[4] = 2;
    b[5] = 1;
    b[24] = 0x00;
    b[25] = 0x10; // entry = 0x1000
    b[32] = 64; // phoff
    b[54] = 56; // phentsize
    b[56] = 1; // phnum
    // program header at 64
    b[64] = 1; // PT_LOAD
    b[68] = 5; // flags: R | X
    b[72] = 120; // offset
    b[81] = 0x10; // vaddr = 0x1000
    b[96] = data.len() as u8; // filesz
    b[104] = data.len() as u8; // memsz
    for (i, &d) in data.iter().enumerate() {
        b[120 + i] = d;
    }
    b
}

#[test]
fn addresses_round_to_pages() {
    assert_eq!(PhysAddr(0x80201234).ppn(), PhysPageNum(0x80201));
    assert_eq!(PhysAddr(0x80201234).page_offset(), 0x234);
    assert!(PhysAddr(0x80201000).aligned());
    assert!(!PhysAddr(0x80201001).aligned());
    assert_eq!(VirtAddr(0x5678).vpn(), VirtPageNum(5));
    assert_eq!(VirtAddr(0x5678).page_offset(), 0x678);
    assert_eq!(PhysPageNum(3).addr(), PhysAddr(0x3000));
}

#[test]
fn vpn_splits_into_three_indices() {
    // 0b000000100_000000011_000000010
    let vpn = VirtPageNum((4 << 18) | (3 << 9) | 2);
    assert_eq!(vpn.indices(), [4, 3, 2]);
    assert_eq!(VirtPageNum(0).indices(), [0, 0, 0]);
    assert_eq!(VirtPageNum(0x7FFFFFF).indices(), [511, 511, 511]);
}

#[test]
fn pte_packs_and_unpacks() {
    let e = pte_new(PhysPageNum(0x80255), R | W | V);
    assert_eq!(pte_ppn(e), PhysPageNum(0x80255));
    assert_eq!(pte_flags(e), R | W | V);
    assert_eq!(e, 0x80255 * 1024 + 7);
}

#[test]
fn map_then_translate_returns_the_mapping() {
    let mut fa = FrameAllocator::new(1000, 2000);
    let mut pt = PageTable::new(&mut fa);
    pt.map(VirtPageNum(0x123), PhysPageNum(0x456), R | W | V, &mut fa);
    let (p, f) = pt.translate(VirtPageNum(0x123)).unwrap();
    assert_eq!(p, PhysPageNum(0x456));
    assert_eq!(f, R | W | V);
    // a neighbouring page stays unmapped
    assert!(pt.translate(VirtPageNum(0x124)).is_none());
}

#[test]
fn map_unmap_translate_is_none() {
    let mut fa = FrameAllocator::new(1000, 2000);
    let mut pt = PageTable::new(&mut fa);
    pt.map(VirtPageNum(7), PhysPageNum(99), R | V, &mut fa);
    pt.unmap(VirtPageNum(7));
    assert!(pt.translate(VirtPageNum(7)).is_none());
}

#[test]
fn satp_token_packs_sv39_mode() {
    let mut fa = FrameAllocator::new(0x80240, 0x80340);
    let pt = PageTable::new(&mut fa);
    assert_eq!(pt.satp_token(), 0x8000000000000000u64 + pt.root_ppn);
    assert_eq!(pt.root_ppn, 0x80240);
}

#[test]
fn segment_copy_then_read_back_is_byte_exact() {
    let mut fa = FrameAllocator::new(1000, 2000);
    let mut ms = MemorySet::new(&mut fa);
    let data = [10u8, 20, 30, 40, 50];
    ms.insert_segment(VirtPageNum(8), VirtPageNum(10), U | R | W, Some(&data), &mut fa);
    // reading back through the address space yields identical bytes
    for (i, &d) in data.iter().enumerate() {
        assert_eq!(ms.read_byte(VirtAddr(8 * PAGE_SIZE + i as u64)), Some(d));
    }
    // beyond the buffer the pages are zero, not padding garbage
    assert_eq!(ms.read_byte(VirtAddr(8 * PAGE_SIZE + 5)), Some(0));
    assert_eq!(ms.read_byte(VirtAddr(9 * PAGE_SIZE + 100)), Some(0));
    // outside the segment there is nothing to read
    assert_eq!(ms.read_byte(VirtAddr(11 * PAGE_SIZE)), None);
    // and the translation agrees with the segment's permissions
    let (_p, f) = ms.translate(VirtPageNum(8)).unwrap();
    assert_eq!(f, U | R | W | V);
}

#[test]
fn a_page_spans_all_4096_bytes() {
    // a frame exposes the full 4 KiB page: the very last byte of the
    // page is written and read back, which a short page would miss
    let mut fa = FrameAllocator::new(1000, 2000);
    let mut ms = MemorySet::new(&mut fa);
    let mut data = vec![0u8; 4096];
    data[511] = 0x51;
    data[512] = 0x52;
    data[4095] = 0x53;
    ms.insert_segment(VirtPageNum(4), VirtPageNum(5), U | R, Some(&data), &mut fa);
    assert_eq!(ms.read_byte(VirtAddr(4 * PAGE_SIZE + 511)), Some(0x51));
    assert_eq!(ms.read_byte(VirtAddr(4 * PAGE_SIZE + 512)), Some(0x52));
    assert_eq!(ms.read_byte(VirtAddr(4 * PAGE_SIZE + 4095)), Some(0x53));
}

#[test]
fn every_segment_page_translates_to_its_recorded_frame() {
    let mut fa = FrameAllocator::new(1000, 2000);
    let mut ms = MemorySet::new(&mut fa);
    ms.insert_segment(VirtPageNum(16), VirtPageNum(20), U | R | W, None, &mut fa);
    let seg = &ms.segments[0];
    for k in 0..4u64 {
        let (p, f) = ms.translate(VirtPageNum(16 + k)).unwrap();
        assert_eq!(p, seg.frames[k as usize].ppn);
        assert_eq!(f, seg.flags);
    }
}

#[test]
fn trampoline_is_mapped_at_the_fixed_page() {
    let mut fa = FrameAllocator::new(1000, 2000);
    let mut ms = MemorySet::new(&mut fa);
    ms.map_trampoline(PhysPageNum(0x80200), &mut fa);
    let (p, f) = ms.translate(VirtPageNum(TRAMPOLINE_VPN)).unwrap();
    assert_eq!(p, PhysPageNum(0x80200));
    assert_eq!(f, R | X | V);
    assert_eq!(TRAMPOLINE_VPN, TRAMPOLINE / PAGE_SIZE);
}

#[test]
fn parse_elf_accepts_a_valid_image() {
    let img = tiny_elf(&[1, 2, 3, 4]);
    let elf = parse_elf(&img).unwrap();
    assert_eq!(elf.entry, 0x1000);
    assert_eq!(elf.program_headers.len(), 1);
    let ph = &elf.program_headers[0];
    assert!(ph.is_load());
    assert_eq!(ph.vaddr, 0x1000);
    assert_eq!(ph.offset, 120);
    assert_eq!(ph.file_size, 4);
    assert_eq!(ph.mem_size, 4);
}

#[test]
fn parse_elf_rejects_bad_images() {
    let mut img = tiny_elf(&[1, 2, 3, 4]);
    img[0] = 0; // break the magic
    assert!(parse_elf(&img).is_none());
    let mut img2 = tiny_elf(&[9]);
    img2[81] = 0x11; // unaligned vaddr (0x1100)
    assert!(parse_elf(&img2).is_none());
    assert!(parse_elf(&[0u8; 10]).is_none());
}

#[test]
fn from_elf_builds_the_user_space() {
    let img = tiny_elf(&[0xAA, 0xBB, 0xCC]);
    let mut fa = FrameAllocator::new(1000, 2000);
    let (ms, user_sp, entry) = MemorySet::from_elf(&img, PhysPageNum(0x80200), &mut fa).unwrap();
    assert_eq!(entry, 0x1000);
    // the loaded page holds the file bytes, then zeroes
    assert_eq!(ms.read_byte(VirtAddr(0x1000)), Some(0xAA));
    assert_eq!(ms.read_byte(VirtAddr(0x1001)), Some(0xBB));
    assert_eq!(ms.read_byte(VirtAddr(0x1002)), Some(0xCC));
    assert_eq!(ms.read_byte(VirtAddr(0x1003)), Some(0));
    // the load segment is user-readable-executable
    let (_p, f) = ms.translate(VirtPageNum(1)).unwrap();
    assert_eq!(f, U | R | X | V);
    // user stack: one guard page above the two load pages, two pages of
    // stack; the stack pointer is the byte just below its top
    assert_eq!(user_sp, 5 * PAGE_SIZE - 1);
    let (_sp_page, sf) = ms.translate(VirtPageNum(3)).unwrap();
    assert_eq!(sf, U | R | W | V);
    // the fixed pages at the top
    assert!(ms.translate(VirtPageNum(TRAP_CONTEXT / PAGE_SIZE)).is_some());
    assert!(ms.translate(VirtPageNum(TRAMPOLINE_VPN)).is_some());
    // invalid images are refused
    assert!(MemorySet::from_elf(&[1, 2, 3], PhysPageNum(0x80200), &mut fa).is_err());
}

#[test]
fn trap_context_serialises_and_comes_back_identical() {
    let mut cx = TrapContext::app_init_context(0x1000, 0x4FFF, 0x8000000000080240, 0x90000, 0x80202000);
    cx.x[17] = 93;
    cx.x[10] = 7;
    let bytes = cx.to_bytes();
    assert_eq!(bytes.len(), 296);
    let cx2 = TrapContext::from_bytes(&bytes);
    // identity on the 32 GPRs, sstatus, and sepc
    for k in 0..32 {
        assert_eq!(cx2.x[k], cx.x[k]);
    }
    assert_eq!(cx2.sstatus, cx.sstatus);
    assert_eq!(cx2.sepc, cx.sepc);
    assert_eq!(cx2.kernel_satp, cx.kernel_satp);
    assert_eq!(cx2.kernel_sp, cx.kernel_sp);
    assert_eq!(cx2.trap_handler, cx.trap_handler);
    // the layout is fixed: x2 at byte 16, sepc at byte 264
    assert_eq!(bytes[16], 0xFF);
    assert_eq!(bytes[17], 0x4F);
    assert_eq!(bytes[264], 0x00);
    assert_eq!(bytes[265], 0x10);
}

#[test]
fn fresh_trap_context_starts_at_the_entry() {
    let cx = TrapContext::app_init_context(0x1234, 0x2000, 99, 88, 77);
    assert_eq!(cx.sepc, 0x1234);
    assert_eq!(cx.x[2], 0x2000);
    for k in 0..32 {
        if k != 2 {
            assert_eq!(cx.x[k], 0);
        }
    }
    assert_eq!(cx.sstatus, 32); // SPIE set: user mode with interrupts after sret
    assert_eq!(cx.kernel_satp, 99);
    assert_eq!(cx.kernel_sp, 88);
    assert_eq!(cx.trap_handler, 77);
}
