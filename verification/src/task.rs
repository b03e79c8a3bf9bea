//! Process control blocks and the kernel-side task context.
//!
//! A PCB carries a process's identity, its parent and children (by pid),
//! its exit code, status and queue position, its address space, its trap
//! context, and the saved callee-saved state the switcher uses.

use vstd::prelude::*;
use crate::config::{KERNEL_STACK_SIZE, PAGE_SIZE, TRAMPOLINE};
use crate::context::TrapContext;
use crate::memory_set::MemorySet;

verus! {

/// Where a process stands in its lifecycle.
#[derive(Copy, Clone, Debug, PartialEq, Eq, Structural)]
pub enum TaskStatus {
    Ready,
    Running,
    Exited,
}

/// Which scheduler queue a process belongs to.
#[derive(Copy, Clone, Debug, PartialEq, Eq, Structural)]
pub enum TaskPos {
    Fcfs1,
    Fcfs2,
    Rr,
}

/// The callee-saved registers, return address and stack pointer the
/// switcher saves and restores between two tasks' kernel stacks.
pub struct TaskContext {
    /// Where the switcher returns to.
    pub ra: u64,
    /// The kernel stack pointer.
    pub sp: u64,
    /// The twelve callee-saved registers.
    pub s: Vec<u64>,
}

impl TaskContext {
    pub open spec fn wf(self) -> bool {
        self.s.len() == 12
    }

    /// An all-zero context, the placeholder the first switch saves into.
    pub fn zero_init() -> (r: TaskContext)
        ensures
            r.wf(),
            r.ra == 0,
            r.sp == 0,
            forall|k: int| 0 <= k < 12 ==> r.s[k] == 0,
    {
        TaskContext { ra: 0, sp: 0, s: zero_regs() }
    }

    /// The context a fresh task first switches into: returning into the
    /// trap-return path on its own kernel stack, so it enters user mode.
    pub fn goto_trap_return(kernel_stack_top: u64, trap_return_va: u64) -> (r: TaskContext)
        ensures
            r.wf(),
            r.ra == trap_return_va,
            r.sp == kernel_stack_top,
            forall|k: int| 0 <= k < 12 ==> r.s[k] == 0,
    {
        TaskContext { ra: trap_return_va, sp: kernel_stack_top, s: zero_regs() }
    }
}

fn zero_regs() -> (r: Vec<u64>)
    ensures
        r.len() == 12,
        forall|k: int| 0 <= k < 12 ==> r[k] == 0,
{
    let mut v: Vec<u64> = Vec::new();
    let mut i: usize = 0;
    while i < 12
        invariant
            i == v.len(),
            i <= 12,
            forall|k: int| 0 <= k < i ==> v[k] == 0,
        decreases 12 - i,
    {
        v.push(0);
        i = i + 1;
    }
    v
}

/// The fixed kernel-stack window of a process: two pages just below the
/// trampoline region, one guard page between neighbours.
pub fn kernel_stack_position(pid: u64) -> (r: (u64, u64))
    requires
        (pid + 1) * (KERNEL_STACK_SIZE + PAGE_SIZE) <= TRAMPOLINE,
    ensures
        r.1 == TRAMPOLINE - pid * (KERNEL_STACK_SIZE + PAGE_SIZE),
        r.0 == r.1 - KERNEL_STACK_SIZE,
{
    proof {
        let k = (KERNEL_STACK_SIZE + PAGE_SIZE) as int;
        assert((pid as int + 1) * k == pid as int * k + k) by (nonlinear_arith);
    }
    let top = TRAMPOLINE - pid * (KERNEL_STACK_SIZE + PAGE_SIZE);
    (top - KERNEL_STACK_SIZE, top)
}

/// The kernel's record of one process.
pub struct ProcessControlBlock {
    /// The process id.
    pub pid: u64,
    /// The parent's pid; the daemon is its own parent.
    pub parent: u64,
    /// Pids of the children this process owns.
    pub children: Vec<u64>,
    /// The exit code the parent will observe.
    pub exit_code: i32,
    /// Lifecycle state.
    pub task_status: TaskStatus,
    /// Scheduler queue position.
    pub task_pos: TaskPos,
    /// Saved kernel-side context for the switcher.
    pub task_cx: TaskContext,
    /// The register snapshot for returning to user mode.
    pub trap_cx: TrapContext,
    /// This process's address space.
    pub memory_set: MemorySet,
    /// Top of this process's kernel stack.
    pub kernel_stack_top: u64,
}

impl ProcessControlBlock {
    pub open spec fn wf(self) -> bool {
        &&& self.task_cx.wf()
        &&& self.trap_cx.wf()
        &&& self.memory_set.wf()
    }
}

} // verus!
