//! Platform constants: page geometry, the fixed virtual-memory layout,
//! timer frequency, and the per-queue scheduling quanta.

use vstd::prelude::*;

verus! {

/// Bytes per page.
pub const PAGE_SIZE: u64 = 4096;
/// log2 of the page size.
pub const PAGE_SIZE_BITS: u64 = 12;
/// Entries per page-table page (512 eight-byte entries).
pub const PTE_PER_PAGE: u64 = 512;
/// Virtual page numbers are 27 bits: three 9-bit indices.
pub const VPN_LIMIT: u64 = 0x8000000;
/// Physical page numbers fit in 44 bits.
pub const PPN_LIMIT: u64 = 0x100000000000;
/// Top of the 39-bit virtual address space.
pub const ADDR_SPACE_TOP: u64 = 0x8000000000;
/// The trampoline page sits in the last page of the address space.
pub const TRAMPOLINE: u64 = ADDR_SPACE_TOP - PAGE_SIZE;
/// The trap-context page sits one page below the trampoline.
pub const TRAP_CONTEXT: u64 = TRAMPOLINE - PAGE_SIZE;
/// Bytes of user stack given to each process.
pub const USER_STACK_SIZE: u64 = PAGE_SIZE * 2;
/// Bytes of kernel stack given to each process.
pub const KERNEL_STACK_SIZE: u64 = PAGE_SIZE * 2;
/// First byte of physical memory that is never handed out.
pub const MEMORY_END_ADDR: u64 = 0x80800000;
/// Pages of user stack given to each process.
pub const USER_STACK_PAGES: u64 = USER_STACK_SIZE / PAGE_SIZE;
/// The virtual page of the trap context.
pub const TRAP_CONTEXT_VPN: u64 = TRAP_CONTEXT / PAGE_SIZE;

/// Timer increments per second.
pub const CLOCK_FREQ: u64 = 12500000;
/// Timer increments per millisecond.
pub const TICKS_PER_MSEC: u64 = CLOCK_FREQ / 1000;

/// Time slice of the first (highest-priority) queue, in timer ticks.
pub const TASK_QUEUE_FCFS1_SLICE: u64 = TICKS_PER_MSEC * 5;
/// Time slice of the second queue, in timer ticks.
pub const TASK_QUEUE_FCFS2_SLICE: u64 = TICKS_PER_MSEC * 10;
/// Time slice of the round-robin queue, in timer ticks.
pub const TASK_QUEUE_RR_SLICE: u64 = TICKS_PER_MSEC * 20;

} // verus!
