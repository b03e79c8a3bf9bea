//! Core of a small RISC-V supervisor-mode kernel, written as a verified
//! state machine over plain values: physical frames, SV39 page tables,
//! address spaces built from ELF images, trap contexts, and a multilevel
//! feedback queue scheduler.  Hardware access (CSRs, SBI calls, the
//! trampoline assembly) lives outside this library; the library decides,
//! the surrounding program performs.

use vstd::prelude::*;

pub mod config;
pub mod addr;
pub mod frame;
pub mod pid;
pub mod page_table;
pub mod segment;
pub mod memory_set;
pub mod elf;
pub mod context;
pub mod task;
pub mod schd;
pub mod manager;
pub mod timer;
pub mod kernel;

verus! {

/// The kernel's error values: what a failed operation reports.  Frame
/// and pid exhaustion are kernel-fatal and excluded by contract, so the
/// only reportable failure is a bad executable image.
#[derive(Copy, Clone, Debug, PartialEq, Eq, Structural)]
pub enum KernError {
    /// The ELF image fails validation.
    InvalidElf,
}

} // verus!

