//! The kernel as one state machine: the frame and pid allocators, the
//! task manager, and the kernel address space, driven by traps.
//!
//! The surrounding program reads the hardware (`scause`, `stval`, the
//! timer) and performs the outcome (prints, arms the timer, switches,
//! returns to user mode); every decision in between is made and verified
//! here.

use vstd::prelude::*;
use crate::addr::PhysAddr;
use crate::config::{
    KERNEL_STACK_SIZE, PAGE_SIZE, TICKS_PER_MSEC, TRAMPOLINE, TRAP_CONTEXT, USER_STACK_PAGES,
};
use crate::elf::{elf_entry, elf_pages_upto, elf_phnum, elf_wf};
use crate::memory_set::KernelLayout;
use crate::KernError;
use crate::context::TrapContext;
use crate::frame::FrameAllocator;
use crate::manager::{
    cnt, lemma_cnt_all_parts, lemma_cnt_push, lemma_cnt_remove, lemma_cnt_single,
    queues_reparented, reparented, TaskManager,
};
use crate::memory_set::MemorySet;
use crate::pid::RecycleAllocator;
use crate::memory_set::same_user_content;
use crate::schd::{
    demote, next_of, pop_step, requeue_step, time_slice_spec, MultilevelFeedbackQueue,
};
use crate::task::{kernel_stack_position, ProcessControlBlock, TaskPos, TaskStatus, TaskContext};

verus! {

/// Cause value of a breakpoint exception.
pub const BREAKPOINT: u64 = 3;
/// Cause value of an environment call from user mode.
pub const ENVIRONMENT_CALL: u64 = 8;
/// Cause value of an illegal-instruction exception.
pub const ILLEGAL_INSTRUCTION: u64 = 2;
/// Cause value of an instruction page fault.
pub const INSTRUCTION_PAGE_FAULT: u64 = 12;
/// Cause value of a supervisor timer interrupt: interrupt bit plus five.
pub const SUPERVISOR_TIMER_INTERRUPT: u64 = 0x8000000000000005;

/// What kind of trap a cause value names.
#[derive(Copy, Clone, Debug, PartialEq, Eq, Structural)]
pub enum TrapKind {
    Breakpoint,
    SupervisorTimer,
    UserEnvCall,
    IllegalInstruction,
    InstructionPageFault,
    Unknown,
}

/// The recognised trap causes.
pub open spec fn decode_spec(scause: u64) -> TrapKind {
    if scause == BREAKPOINT {
        TrapKind::Breakpoint
    } else if scause == SUPERVISOR_TIMER_INTERRUPT {
        TrapKind::SupervisorTimer
    } else if scause == ENVIRONMENT_CALL {
        TrapKind::UserEnvCall
    } else if scause == ILLEGAL_INSTRUCTION {
        TrapKind::IllegalInstruction
    } else if scause == INSTRUCTION_PAGE_FAULT {
        TrapKind::InstructionPageFault
    } else {
        TrapKind::Unknown
    }
}

/// Decode a cause value.
pub fn decode_scause(scause: u64) -> (r: TrapKind)
    ensures
        r == decode_spec(scause),
{
    if scause == BREAKPOINT {
        TrapKind::Breakpoint
    } else if scause == SUPERVISOR_TIMER_INTERRUPT {
        TrapKind::SupervisorTimer
    } else if scause == ENVIRONMENT_CALL {
        TrapKind::UserEnvCall
    } else if scause == ILLEGAL_INSTRUCTION {
        TrapKind::IllegalInstruction
    } else if scause == INSTRUCTION_PAGE_FAULT {
        TrapKind::InstructionPageFault
    } else {
        TrapKind::Unknown
    }
}

/// What the dispatcher decided; the surrounding program performs it.
#[derive(Copy, Clone, Debug, PartialEq, Eq, Structural)]
pub enum TrapOutcome {
    /// Print the breakpoint line once and return to the same process.
    Breakpoint { sepc: u64 },
    /// The syscall completed; its value is already in the process's x10.
    SyscallReturn { ret: i64 },
    /// The syscall is a file-system call the core delegates outward.
    SyscallForwarded { which: u64 },
    /// A scheduling decision was taken; arm the timer with `slice`.
    Scheduled { slice: u64 },
    /// The process exited by syscall; print its line, arm `slice`.
    ProcessExited { pid: u64, exit_code: i32, slice: u64 },
    /// A fault killed the process; print its line, arm `slice`.
    ProcessKilled { pid: u64, sepc: u64, exit_code: i32, slice: u64 },
    /// An unrecognised cause or syscall: a kernel bug; halt.
    KernelPanic { scause: u64, stval: u64 },
}

/// What one syscall decided.
#[derive(Copy, Clone, Debug, PartialEq, Eq, Structural)]
pub enum SyscallOutcome {
    /// Completed with this return value.
    Ret { ret: i64 },
    /// The process exited.
    Exited { pid: u64, exit_code: i32, slice: u64 },
    /// The process yielded the hart.
    Yielded { slice: u64 },
    /// A file-system call, delegated outward.
    Forwarded { which: u64 },
    /// An unknown syscall number: a kernel bug.
    Unknown { which: u64 },
}

/// Whether this trap ends the current process.
pub open spec fn trap_exits(scause: u64, x17: u64) -> bool {
    ||| scause == ILLEGAL_INSTRUCTION
    ||| scause == INSTRUCTION_PAGE_FAULT
    ||| (scause == ENVIRONMENT_CALL && x17 == 93)
}


/// Registers and kernel entry words of `b` equal those of `a`, except
/// possibly slot `skip` (pass a slot outside 0..32 to compare them all);
/// `sepc` is deliberately left out and stated separately by callers.
pub open spec fn same_regs_except(a: TrapContext, b: TrapContext, skip: int) -> bool {
    &&& b.x.len() == a.x.len()
    &&& forall|k: int| 0 <= k < 32 && k != skip ==> b.x[k] == a.x[k]
    &&& b.sstatus == a.sstatus
    &&& b.kernel_satp == a.kernel_satp
    &&& b.kernel_sp == a.kernel_sp
    &&& b.trap_handler == a.trap_handler
}

/// Everything of a PCB except its trap context is unchanged.
pub open spec fn same_task_but_registers(a: ProcessControlBlock, b: ProcessControlBlock) -> bool {
    &&& b.pid == a.pid
    &&& b.parent == a.parent
    &&& b.children == a.children
    &&& b.exit_code == a.exit_code
    &&& b.task_status == a.task_status
    &&& b.task_pos == a.task_pos
    &&& b.task_cx == a.task_cx
    &&& b.memory_set == a.memory_set
    &&& b.kernel_stack_top == a.kernel_stack_top
}

/// The scheduler queues and the zombie list are unchanged.
pub open spec fn queues_unchanged(pre: Kernel, post: Kernel) -> bool {
    &&& post.tm.schd.mlfq.fcfs1_queue@ == pre.tm.schd.mlfq.fcfs1_queue@
    &&& post.tm.schd.mlfq.fcfs2_queue@ == pre.tm.schd.mlfq.fcfs2_queue@
    &&& post.tm.schd.mlfq.rr_queue@ == pre.tm.schd.mlfq.rr_queue@
    &&& post.tm.zombies@ == pre.tm.zombies@
}

/// How the yielding task `a` reappears as `b`: demoted exactly one
/// level, with status `st`, its fork/yield return slot x10 holding zero,
/// its program counter at `sepc`, and everything else carried over.
pub open spec fn yielded_task(
    a: ProcessControlBlock,
    b: ProcessControlBlock,
    sepc: u64,
    st: TaskStatus,
) -> bool {
    &&& b.pid == a.pid
    &&& b.parent == a.parent
    &&& b.children == a.children
    &&& b.exit_code == a.exit_code
    &&& b.task_status == st
    &&& b.task_pos == demote(a.task_pos)
    &&& b.task_cx == a.task_cx
    &&& b.memory_set == a.memory_set
    &&& b.kernel_stack_top == a.kernel_stack_top
    &&& b.trap_cx.x.len() == 32
    &&& b.trap_cx.x[10] == 0
    &&& forall|k: int| 0 <= k < 32 && k != 10 ==> b.trap_cx.x[k] == a.trap_cx.x[k]
    &&& b.trap_cx.sepc == sepc
    &&& b.trap_cx.sstatus == a.trap_cx.sstatus
    &&& b.trap_cx.kernel_satp == a.trap_cx.kernel_satp
    &&& b.trap_cx.kernel_sp == a.trap_cx.kernel_sp
    &&& b.trap_cx.trap_handler == a.trap_cx.trap_handler
}

/// The yielding task `a` sits at the back of the queue one level below
/// its old one; the other queues are exactly the popped state.
pub open spec fn yield_requeued(
    pre: MultilevelFeedbackQueue,
    post: MultilevelFeedbackQueue,
    a: ProcessControlBlock,
    sepc: u64,
) -> bool {
    match demote(a.task_pos) {
        TaskPos::Fcfs2 => post.fcfs2_queue@.len() == pre.fcfs2_queue@.len() + 1
            && post.fcfs2_queue@.subrange(0, pre.fcfs2_queue@.len() as int)
                == pre.fcfs2_queue@
            && yielded_task(a, post.fcfs2_queue@.last(), sepc, TaskStatus::Ready)
            && post.fcfs1_queue@ == pre.fcfs1_queue@
            && post.rr_queue@ == pre.rr_queue@,
        TaskPos::Rr => post.rr_queue@.len() == pre.rr_queue@.len() + 1
            && post.rr_queue@.subrange(0, pre.rr_queue@.len() as int) == pre.rr_queue@
            && yielded_task(a, post.rr_queue@.last(), sepc, TaskStatus::Ready)
            && post.fcfs1_queue@ == pre.fcfs1_queue@
            && post.fcfs2_queue@ == pre.fcfs2_queue@,
        TaskPos::Fcfs1 => false,
    }
}

/// One voluntary yield, as one step of the kernel: the yielding task is
/// demoted exactly one level to the back of its new queue with zero in
/// its x10 and its program counter at `sepc`, and the front of the
/// highest non-empty queue takes the hart -- the yielding task itself
/// when nothing outranked it.
pub open spec fn yield_step(pre: Kernel, post: Kernel, sepc: u64) -> bool {
    &&& post.daemon_pid == pre.daemon_pid
    &&& post.pids == pre.pids
    &&& post.frames == pre.frames
    &&& post.kernel_set == pre.kernel_set
    &&& post.tm.current_task.task_status == TaskStatus::Running
    &&& if pre.tm.keeps_hart() {
        yielded_task(pre.tm.current_task, post.tm.current_task, sepc, TaskStatus::Running)
            && post.tm.schd.mlfq.fcfs1_queue@ == pre.tm.schd.mlfq.fcfs1_queue@
            && post.tm.schd.mlfq.fcfs2_queue@ == pre.tm.schd.mlfq.fcfs2_queue@
            && post.tm.schd.mlfq.rr_queue@ == pre.tm.schd.mlfq.rr_queue@
            && post.tm.zombies@ == pre.tm.zombies@
    } else {
        post.tm.current_task == (ProcessControlBlock {
            task_status: TaskStatus::Running,
            ..next_of(pre.tm.schd.mlfq)
        }) && post.tm.zombies@ == pre.tm.zombies@
            && (exists|mid: MultilevelFeedbackQueue|
                #[trigger] pop_step(pre.tm.schd.mlfq, mid)
                    && yield_requeued(mid, post.tm.schd.mlfq, pre.tm.current_task, sepc))
    }
}

/// One timer preemption, as one step of the kernel: the running task is
/// demoted exactly one level to the back of its new queue with all its
/// registers intact, and the front of the highest non-empty queue takes
/// the hart -- the preempted task itself when nothing outranked it.
pub open spec fn tick_step(pre: Kernel, post: Kernel) -> bool {
    &&& post.daemon_pid == pre.daemon_pid
    &&& post.pids == pre.pids
    &&& post.frames == pre.frames
    &&& post.kernel_set == pre.kernel_set
    &&& post.tm.current_task.task_status == TaskStatus::Running
    &&& if pre.tm.keeps_hart() {
        post.tm.current_task == (ProcessControlBlock {
            task_pos: demote(pre.tm.current_task.task_pos),
            task_status: TaskStatus::Running,
            ..pre.tm.current_task
        }) && post.tm.schd.mlfq.fcfs1_queue@ == pre.tm.schd.mlfq.fcfs1_queue@
            && post.tm.schd.mlfq.fcfs2_queue@ == pre.tm.schd.mlfq.fcfs2_queue@
            && post.tm.schd.mlfq.rr_queue@ == pre.tm.schd.mlfq.rr_queue@
            && post.tm.zombies@ == pre.tm.zombies@
    } else {
        post.tm.current_task == (ProcessControlBlock {
            task_status: TaskStatus::Running,
            ..next_of(pre.tm.schd.mlfq)
        }) && post.tm.zombies@ == pre.tm.zombies@
            && (exists|mid: MultilevelFeedbackQueue|
                #[trigger] pop_step(pre.tm.schd.mlfq, mid)
                    && requeue_step(mid, post.tm.schd.mlfq, ProcessControlBlock {
                        task_status: TaskStatus::Ready,
                        ..pre.tm.current_task
                    }))
    }
}


/// One process exit, as one step of the kernel: the dead task's children
/// are adopted by the daemon, every orphan's parent reference is rebound,
/// the task joins the zombies with its exit code, and the front of the
/// highest non-empty reparented queue runs next.
pub open spec fn exit_step(pre: Kernel, post: Kernel, exit_code: i32) -> bool {
    &&& post.daemon_pid == pre.daemon_pid
    &&& post.pids == pre.pids
    &&& post.frames == pre.frames
    &&& post.kernel_set == pre.kernel_set
    &&& post.tm.current_task.task_status == TaskStatus::Running
    &&& post.tm.zombies@.len() == pre.tm.zombies@.len() + 1
    &&& post.tm.zombies@.last().pid == pre.tm.current_task.pid
    &&& post.tm.zombies@.last().exit_code == exit_code
    &&& post.tm.zombies@.last().task_status == TaskStatus::Exited
    &&& post.tm.zombies@.last().children@.len() == 0
    &&& ({
        let xpid = pre.tm.current_task.pid;
        let kids = pre.tm.current_task.children@;
        let dpid = pre.daemon_pid;
        &&& (forall|i: int| 0 <= i < pre.tm.zombies@.len()
            ==> reparented(pre.tm.zombies@[i], #[trigger] post.tm.zombies@[i],
                xpid, dpid, kids))
        &&& (exists|mq: MultilevelFeedbackQueue|
            #[trigger] queues_reparented(pre.tm.schd.mlfq, mq, xpid, dpid, kids)
                && pop_step(mq, post.tm.schd.mlfq)
                && post.tm.current_task == (ProcessControlBlock {
                    task_status: TaskStatus::Running,
                    ..next_of(mq)
                }))
    })
}

/// The kernel's whole state.
pub struct Kernel {
    /// The physical frame allocator.
    pub frames: FrameAllocator,
    /// The process-id allocator.
    pub pids: RecycleAllocator,
    /// The running, queued, and exited tasks.
    pub tm: TaskManager,
    /// The kernel's own address space.
    pub kernel_set: MemorySet,
    /// The immortal adopter of orphans.
    pub daemon_pid: u64,
    /// Physical page of the trampoline code.
    pub trampoline_ppn: crate::addr::PhysPageNum,
    /// Virtual address of the kernel trap handler, stored in every trap context.
    pub trap_handler_va: u64,
    /// Virtual address of the trap-return path, the first `ra` of new tasks.
    pub trap_return_va: u64,
}

impl Kernel {
    /// Well-formed, with pid accounting: a pid is live in the allocator
    /// exactly when exactly one owned PCB carries it.
    pub open spec fn wf(self) -> bool {
        &&& self.frames.wf()
        &&& self.pids.wf()
        &&& self.tm.wf()
        &&& self.tm.current_task.task_status == TaskStatus::Running
        &&& self.kernel_set.wf()
        &&& self.trampoline_ppn.0 < crate::config::PPN_LIMIT
        &&& forall|p: u64| cnt(self.tm.all_pcbs(), p) == if self.pids.is_allocated(p as int) {
            1int
        } else {
            0int
        }
    }

    /// The currently running process.
    pub fn get_current_process(&self) -> (r: &ProcessControlBlock)
        ensures
            r == self.tm.current_task,
    {
        self.tm.get_current_process()
    }

    /// The data the trap-return path hands to the trampoline: the fixed
    /// trap-context address and the user's satp token.
    pub fn trap_return_data(&self) -> (r: (u64, u64))
        requires
            self.wf(),
        ensures
            r.0 == TRAP_CONTEXT,
            r.1 == 0x8000000000000000u64 + self.tm.current_task.memory_set.page_table.root_ppn,
    {
        (TRAP_CONTEXT, self.tm.current_task.memory_set.satp_token())
    }


    /// Bring the kernel up in boot order: seed the frame allocator with
    /// the memory above the kernel image, build and keep the kernel
    /// address space, start the pid allocator, load the daemon from its
    /// ELF image as the first (running) process, and hand back the
    /// assembled kernel.  `Err` exactly on an invalid daemon image.
    pub fn init(
        layout: &KernelLayout,
        daemon_elf: &[u8],
        trap_handler_va: u64,
        trap_return_va: u64,
    ) -> (r: Result<Kernel, KernError>)
        requires
            layout.wf(),
            (layout.memory_end as int) / (PAGE_SIZE as int)
                - (layout.kernel_end as int) / (PAGE_SIZE as int)
                >= 2 * (((layout.memory_end as int) / (PAGE_SIZE as int)) / 512
                        - ((layout.text_start as int) / (PAGE_SIZE as int)) / 512) + 23
                    + (if elf_wf(daemon_elf@) {
                        3 * elf_pages_upto(daemon_elf@, elf_phnum(daemon_elf@))
                            + 3 * (USER_STACK_PAGES + 1) + 3
                    } else {
                        0int
                    }),
        ensures
            r is Ok <==> elf_wf(daemon_elf@),
            match r {
                Ok(k) => {
                    &&& k.wf()
                    &&& k.daemon_pid == 0
                    &&& k.tm.current_task.pid == 0
                    &&& k.tm.current_task.task_status == TaskStatus::Running
                    &&& k.tm.current_task.trap_cx.sepc == elf_entry(daemon_elf@)
                    &&& k.tm.schd.mlfq.total_len() == 0
                    &&& k.tm.zombies@.len() == 0
                    &&& k.trap_handler_va == trap_handler_va
                    &&& k.trap_return_va == trap_return_va
                },
                Err(e) => e == KernError::InvalidElf,
            },
    {
        proof {
            vstd::arithmetic::div_mod::lemma_div_is_ordered(
                layout.kernel_end as int, layout.memory_end as int, PAGE_SIZE as int);
            vstd::arithmetic::div_mod::lemma_div_is_ordered(
                0, layout.kernel_end as int, PAGE_SIZE as int);
            vstd::arithmetic::div_mod::lemma_div_is_ordered(
                layout.memory_end as int, TRAMPOLINE as int, PAGE_SIZE as int);
        }
        proof {
            if elf_wf(daemon_elf@) {
                crate::elf::lemma_pages_upto_bounds(
                    daemon_elf@, 0, elf_phnum(daemon_elf@));
            }
        }
        let first_frame = layout.kernel_end / PAGE_SIZE;
        let end_frame = layout.memory_end / PAGE_SIZE;
        let mut frames = FrameAllocator::new(first_frame, end_frame);
        let kernel_set = MemorySet::new_kernel(layout, &mut frames);
        let kernel_satp = kernel_set.satp_token();
        let mut pids = RecycleAllocator::new();
        let trampoline_ppn = PhysAddr(layout.trampoline_pa).ppn();
        proof {
            assert(layout.trampoline_pa as int / (PAGE_SIZE as int)
                < crate::config::PPN_LIMIT);
        }
        let (ms, user_sp, entry) = match MemorySet::from_elf(
            daemon_elf, trampoline_ppn, &mut frames) {
            Ok(t) => t,
            Err(_) => {
                return Err(KernError::InvalidElf);
            },
        };
        let daemon_pid = pids.allocate();
        let (_kbottom, ktop) = kernel_stack_position(daemon_pid);
        let trap_cx = TrapContext::app_init_context(
            entry, user_sp, kernel_satp, ktop, trap_handler_va);
        let task_cx = TaskContext::goto_trap_return(ktop, trap_return_va);
        let daemon = ProcessControlBlock {
            pid: daemon_pid,
            parent: daemon_pid,
            children: Vec::new(),
            exit_code: 0,
            task_status: TaskStatus::Running,
            task_pos: TaskPos::Fcfs1,
            task_cx,
            trap_cx,
            memory_set: ms,
            kernel_stack_top: ktop,
        };
        let ghost daemon_g = daemon;
        let tm = TaskManager::new(daemon);
        let k = Kernel {
            frames,
            pids,
            tm,
            kernel_set,
            daemon_pid,
            trampoline_ppn,
            trap_handler_va,
            trap_return_va,
        };
        proof {
            assert forall|q: u64| cnt(k.tm.all_pcbs(), q)
                == (if k.pids.is_allocated(q as int) { 1int } else { 0int }) by {
                lemma_cnt_all_parts(k.tm, q);
                lemma_cnt_single(k.tm.current_task, q);
            };
        }
        Ok(k)
    }

    /// Load a new user process from an ELF image: it gets a fresh pid, a
    /// fresh address space, the current process as parent, and a place at
    /// the back of the first queue.  `Err` exactly on an invalid image;
    /// frame or pid exhaustion is kernel-fatal and excluded by contract.
    pub fn spawn(&mut self, elf_data: &[u8]) -> (r: Result<u64, KernError>)
        requires
            old(self).wf(),
            old(self).pids.current < u64::MAX,
            (old(self).pids.current + 1) * (KERNEL_STACK_SIZE + PAGE_SIZE) <= TRAMPOLINE,
            elf_wf(elf_data@) ==> old(self).frames.free_count()
                >= 3 * elf_pages_upto(elf_data@, elf_phnum(elf_data@))
                    + 3 * (USER_STACK_PAGES + 1) + 3,
        ensures
            final(self).wf(),
            final(self).daemon_pid == old(self).daemon_pid,
            r is Ok <==> elf_wf(elf_data@),
            match r {
                Ok(child) => {
                    &&& !old(self).pids.is_allocated(child as int)
                    &&& final(self).pids.is_allocated(child as int)
                    &&& final(self).tm.schd.mlfq.fcfs1_queue@.len()
                        == old(self).tm.schd.mlfq.fcfs1_queue@.len() + 1
                    &&& ({
                        let c = final(self).tm.schd.mlfq.fcfs1_queue@.last();
                        &&& c.pid == child
                        &&& c.parent == old(self).tm.current_task.pid
                        &&& c.task_status == TaskStatus::Ready
                        &&& c.task_pos == TaskPos::Fcfs1
                        &&& c.trap_cx.sepc == elf_entry(elf_data@)
                    })
                    &&& final(self).tm.current_task.children@
                        == old(self).tm.current_task.children@.push(child)
                },
                Err(e) => e == KernError::InvalidElf,
            },
    {
        let ghost pre = *self;
        let trampoline_ppn = self.trampoline_ppn;
        let (ms, user_sp, entry) = match MemorySet::from_elf(
            elf_data, trampoline_ppn, &mut self.frames) {
            Ok(t) => t,
            Err(_) => {
                proof {
                    assert forall|q: u64| cnt(self.tm.all_pcbs(), q)
                        == (if self.pids.is_allocated(q as int) { 1int } else { 0int }) by {
                        lemma_cnt_all_parts(pre.tm, q);
                        lemma_cnt_all_parts(self.tm, q);
                    };
                    assert(self.wf());
                }
                return Err(KernError::InvalidElf);
            },
        };
        let child_pid = self.pids.allocate();
        proof {
            let k = (KERNEL_STACK_SIZE + PAGE_SIZE) as int;
            assert((child_pid as int + 1) * k <= (pre.pids.current as int + 1) * k)
                by (nonlinear_arith)
                requires child_pid as int <= pre.pids.current as int, k > 0;
        }
        let (_kbottom, ktop) = kernel_stack_position(child_pid);
        let kernel_satp = self.kernel_set.satp_token();
        let trap_handler_va = self.trap_handler_va;
        let trap_cx = TrapContext::app_init_context(
            entry, user_sp, kernel_satp, ktop, trap_handler_va);
        let task_cx = TaskContext::goto_trap_return(ktop, self.trap_return_va);
        let parent_pid = self.tm.current_task.pid;
        let child = ProcessControlBlock {
            pid: child_pid,
            parent: parent_pid,
            children: Vec::new(),
            exit_code: 0,
            task_status: TaskStatus::Ready,
            task_pos: TaskPos::Fcfs1,
            task_cx,
            trap_cx,
            memory_set: ms,
            kernel_stack_top: ktop,
        };
        let ghost child_g = child;
        self.tm.current_task.children.push(child_pid);
        let ghost mid = *self;
        proof {
            assert forall|q: u64| cnt(mid.tm.all_pcbs(), q) == cnt(pre.tm.all_pcbs(), q) by {
                lemma_cnt_all_parts(pre.tm, q);
                lemma_cnt_all_parts(mid.tm, q);
                lemma_cnt_single(pre.tm.current_task, q);
                lemma_cnt_single(mid.tm.current_task, q);
            };
            assert forall|q: u64| cnt(mid.tm.all_pcbs(), q) <= 1 by {
                assert(cnt(mid.tm.all_pcbs(), q) == cnt(pre.tm.all_pcbs(), q));
            };
            assert(mid.tm.wf());
            assert forall|q: u64| cnt(mid.tm.all_pcbs(), q)
                + cnt(seq![child_g], q) <= 1 || cnt(seq![child_g], q) == 0 by {
                lemma_cnt_single(child_g, q);
                assert(cnt(mid.tm.all_pcbs(), q) == cnt(pre.tm.all_pcbs(), q));
            };
        }
        self.tm.add_new_task(child);
        proof {
            let moved = ProcessControlBlock { task_pos: TaskPos::Fcfs1, ..child_g };
            assert forall|q: u64| cnt(self.tm.all_pcbs(), q)
                == (if self.pids.is_allocated(q as int) { 1int } else { 0int }) by {
                lemma_cnt_all_parts(pre.tm, q);
                lemma_cnt_all_parts(mid.tm, q);
                lemma_cnt_all_parts(self.tm, q);
                lemma_cnt_single(pre.tm.current_task, q);
                lemma_cnt_single(mid.tm.current_task, q);
                lemma_cnt_push(mid.tm.schd.mlfq.fcfs1_queue@, moved, q);
            };
            assert(self.tm.schd.mlfq.fcfs1_queue@.last() == moved);
        }
        Ok(child_pid)
    }

    /// Dispatch one user trap: decode the cause, act, and say what the
    /// surrounding program must do.  Exiting the daemon or running out of
    /// runnable tasks is a kernel bug excluded by contract; so is frame
    /// or pid exhaustion during a fork.
    pub fn handle_trap(&mut self, scause: u64, stval: u64, now: u64) -> (r: TrapOutcome)
        requires
            old(self).wf(),
            trap_exits(scause, old(self).tm.current_task.trap_cx.x[17])
                ==> old(self).tm.current_task.pid != old(self).daemon_pid
                    && old(self).tm.schd.mlfq.total_len() > 0,
            scause == ENVIRONMENT_CALL && old(self).tm.current_task.trap_cx.x[17] == 220
                ==> old(self).fork_allowed(),
        ensures
            final(self).wf(),
            final(self).daemon_pid == old(self).daemon_pid,
            match decode_spec(scause) {
                TrapKind::Breakpoint => {
                    // advance sepc past the two-byte instruction and resume;
                    // nothing else of the process or the kernel changes
                    &&& r == (TrapOutcome::Breakpoint {
                        sepc: old(self).tm.current_task.trap_cx.sepc.wrapping_add(2),
                    })
                    &&& final(self).tm.current_task.trap_cx.sepc
                        == old(self).tm.current_task.trap_cx.sepc.wrapping_add(2)
                    &&& same_task_but_registers(old(self).tm.current_task,
                        final(self).tm.current_task)
                    &&& same_regs_except(old(self).tm.current_task.trap_cx,
                        final(self).tm.current_task.trap_cx, 32)
                    &&& queues_unchanged(*old(self), *final(self))
                    &&& final(self).pids == old(self).pids
                    &&& final(self).frames == old(self).frames
                    &&& final(self).kernel_set == old(self).kernel_set
                },
                TrapKind::SupervisorTimer => {
                    // preemption: demote the running task one level to the
                    // back of its new queue and run the next one
                    &&& r matches TrapOutcome::Scheduled { slice }
                    &&& (r matches TrapOutcome::Scheduled { slice }
                        ==> slice == time_slice_spec(final(self).tm.current_task.task_pos))
                    &&& tick_step(*old(self), *final(self))
                },
                TrapKind::UserEnvCall => {
                    // on a plain return the same process resumes past the
                    // ecall with the syscall's value in its x10 and nothing
                    // else of its registers or the queues touched
                    &&& (r matches TrapOutcome::SyscallReturn { ret } ==> {
                        &&& final(self).tm.current_task.pid == old(self).tm.current_task.pid
                        &&& final(self).tm.current_task.trap_cx.sepc
                            == old(self).tm.current_task.trap_cx.sepc.wrapping_add(4)
                        &&& final(self).tm.current_task.trap_cx.x[10]
                            == #[verifier::truncate] (ret as u64)
                        &&& same_regs_except(old(self).tm.current_task.trap_cx,
                            final(self).tm.current_task.trap_cx, 10)
                        &&& final(self).tm.current_task.parent
                            == old(self).tm.current_task.parent
                        &&& final(self).tm.current_task.exit_code
                            == old(self).tm.current_task.exit_code
                        &&& final(self).tm.current_task.task_status
                            == old(self).tm.current_task.task_status
                        &&& final(self).tm.current_task.task_pos
                            == old(self).tm.current_task.task_pos
                        &&& final(self).tm.current_task.task_cx
                            == old(self).tm.current_task.task_cx
                        &&& final(self).tm.current_task.memory_set
                            == old(self).tm.current_task.memory_set
                        &&& final(self).tm.current_task.kernel_stack_top
                            == old(self).tm.current_task.kernel_stack_top
                        &&& final(self).tm.schd.mlfq.fcfs2_queue@
                            == old(self).tm.schd.mlfq.fcfs2_queue@
                        &&& final(self).tm.schd.mlfq.rr_queue@
                            == old(self).tm.schd.mlfq.rr_queue@
                        &&& final(self).tm.zombies@ == old(self).tm.zombies@
                        &&& (old(self).tm.current_task.trap_cx.x[17] != 220
                            ==> final(self).tm.schd.mlfq.fcfs1_queue@
                                    == old(self).tm.schd.mlfq.fcfs1_queue@
                                && final(self).tm.current_task.children
                                    == old(self).tm.current_task.children
                                && final(self).pids == old(self).pids
                                && final(self).frames == old(self).frames)
                    })
                    &&& (r matches TrapOutcome::SyscallForwarded { which } ==> {
                        &&& which == old(self).tm.current_task.trap_cx.x[17]
                        &&& final(self).tm.current_task.trap_cx.sepc
                            == old(self).tm.current_task.trap_cx.sepc.wrapping_add(4)
                        &&& same_task_but_registers(old(self).tm.current_task,
                            final(self).tm.current_task)
                        &&& same_regs_except(old(self).tm.current_task.trap_cx,
                            final(self).tm.current_task.trap_cx, 32)
                        &&& queues_unchanged(*old(self), *final(self))
                        &&& final(self).pids == old(self).pids
                        &&& final(self).frames == old(self).frames
                    })
                    &&& (r matches TrapOutcome::ProcessExited { pid, exit_code, slice }
                        ==> pid == old(self).tm.current_task.pid
                            && exit_code == #[verifier::truncate] (old(
                                self).tm.current_task.trap_cx.x[10] as i32)
                            && final(self).tm.zombies@.last().pid == pid
                            && final(self).tm.zombies@.last().exit_code == exit_code)
                    &&& !(r is Breakpoint) && !(r is ProcessKilled)
                    // the outcome is pinned by the syscall number alone
                    &&& ({
                        let w = old(self).tm.current_task.trap_cx.x[17];
                        &&& (w == 169 ==> r == (TrapOutcome::SyscallReturn {
                            ret: (now / TICKS_PER_MSEC) as i64,
                        }))
                        &&& (w == 172 ==> r == (TrapOutcome::SyscallReturn {
                            ret: old(self).tm.current_task.pid as i64,
                        }))
                        &&& (w == 17 || w == 34 || w == 49 || w == 56 || w == 57 || w == 63
                                || w == 64
                            ==> r == (TrapOutcome::SyscallForwarded { which: w }))
                        &&& (w == 93 ==> r is ProcessExited
                            && exit_step(*old(self), *final(self),
                                #[verifier::truncate] (old(
                                    self).tm.current_task.trap_cx.x[10] as i32)))
                        &&& (w == 124 ==> r is Scheduled
                            && yield_step(*old(self), *final(self),
                                old(self).tm.current_task.trap_cx.sepc.wrapping_add(4)))
                        &&& (w == 220 ==> r is SyscallReturn)
                        &&& (!(w == 17 || w == 34 || w == 49 || w == 56 || w == 57 || w == 63
                                || w == 64 || w == 93 || w == 124 || w == 169 || w == 172
                                || w == 220)
                            ==> r == (TrapOutcome::KernelPanic { scause, stval }))
                    })
                },
                TrapKind::IllegalInstruction => {
                    // kill the process with exit code -1: it becomes a
                    // zombie, its children go to the daemon, the next task runs
                    &&& r matches TrapOutcome::ProcessKilled { pid, sepc, exit_code, slice }
                    &&& (r matches TrapOutcome::ProcessKilled { pid, sepc, exit_code, slice }
                        ==> pid == old(self).tm.current_task.pid
                            && sepc == old(self).tm.current_task.trap_cx.sepc
                            && exit_code == -1i32
                            && slice == time_slice_spec(final(self).tm.current_task.task_pos))
                    &&& exit_step(*old(self), *final(self), -1i32)
                },
                TrapKind::InstructionPageFault => {
                    // kill the process with exit code -2: it becomes a
                    // zombie, its children go to the daemon, the next task runs
                    &&& r matches TrapOutcome::ProcessKilled { pid, sepc, exit_code, slice }
                    &&& (r matches TrapOutcome::ProcessKilled { pid, sepc, exit_code, slice }
                        ==> pid == old(self).tm.current_task.pid
                            && sepc == old(self).tm.current_task.trap_cx.sepc
                            && exit_code == -2i32
                            && slice == time_slice_spec(final(self).tm.current_task.task_pos))
                    &&& exit_step(*old(self), *final(self), -2i32)
                },
                TrapKind::Unknown => {
                    // a nested or unrecognised trap is a kernel bug; the
                    // state is handed to the panic untouched
                    r == (TrapOutcome::KernelPanic { scause, stval })
                        && *final(self) == *old(self)
                },
            },
    {
        match decode_scause(scause) {
            TrapKind::Breakpoint => {
                let sepc = self.tm.current_task.trap_cx.sepc;
                let new_sepc = sepc.wrapping_add(2);
                self.tm.current_task.trap_cx.sepc = new_sepc;
                proof {
                    lemma_wf_current_update(*old(self), *self);
                }
                TrapOutcome::Breakpoint { sepc: new_sepc }
            },
            TrapKind::SupervisorTimer => {
                let slice = self.schedule_tick();
                TrapOutcome::Scheduled { slice }
            },
            TrapKind::UserEnvCall => {
                let sepc = self.tm.current_task.trap_cx.sepc;
                self.tm.current_task.trap_cx.sepc = sepc.wrapping_add(4);
                proof {
                    lemma_wf_current_update(*old(self), *self);
                }
                let ghost mid1 = *self;
                let which = self.tm.current_task.trap_cx.x[17];
                let a0 = self.tm.current_task.trap_cx.x[10];
                let a1 = self.tm.current_task.trap_cx.x[11];
                let a2 = self.tm.current_task.trap_cx.x[12];
                let outcome = self.sys_call(which, [a0, a1, a2], now);
                match outcome {
                    SyscallOutcome::Ret { ret } => {
                        let ghost mid = *self;
                        self.tm.current_task.trap_cx.x.set(10, #[verifier::truncate] (ret as u64));
                        proof {
                            lemma_wf_current_update(mid, *self);
                        }
                        TrapOutcome::SyscallReturn { ret }
                    },
                    SyscallOutcome::Exited { pid, exit_code, slice } => {
                        TrapOutcome::ProcessExited { pid, exit_code, slice }
                    },
                    SyscallOutcome::Yielded { slice } => {
                        proof {
                            lemma_yield_step_same_pre(*old(self), mid1, *self,
                                old(self).tm.current_task.trap_cx.sepc.wrapping_add(4));
                        }
                        TrapOutcome::Scheduled { slice }
                    },
                    SyscallOutcome::Forwarded { which } => {
                        TrapOutcome::SyscallForwarded { which }
                    },
                    SyscallOutcome::Unknown { which: _ } => {
                        TrapOutcome::KernelPanic { scause, stval }
                    },
                }
            },
            TrapKind::IllegalInstruction => {
                let pid = self.tm.current_task.pid;
                let sepc = self.tm.current_task.trap_cx.sepc;
                let slice = self.exit_current(-1);
                TrapOutcome::ProcessKilled { pid, sepc, exit_code: -1, slice }
            },
            TrapKind::InstructionPageFault => {
                let pid = self.tm.current_task.pid;
                let sepc = self.tm.current_task.trap_cx.sepc;
                let slice = self.exit_current(-2);
                TrapOutcome::ProcessKilled { pid, sepc, exit_code: -2, slice }
            },
            TrapKind::Unknown => TrapOutcome::KernelPanic { scause, stval },
        }
    }

    /// The numeric syscall dispatch: exit, yield, get_time and getpid are
    /// handled here; fork copies the current process; the file-system
    /// calls are delegated outward; anything else is a kernel bug.
    pub fn sys_call(&mut self, which: u64, args: [u64; 3], now: u64) -> (r: SyscallOutcome)
        requires
            old(self).wf(),
            which == 93 ==> old(self).tm.current_task.pid != old(self).daemon_pid
                && old(self).tm.schd.mlfq.total_len() > 0,
            which == 220 ==> old(self).fork_allowed(),
        ensures
            final(self).wf(),
            final(self).daemon_pid == old(self).daemon_pid,
            which == 169 || which == 172 ==> *final(self) == *old(self),
            which == 17 || which == 34 || which == 49 || which == 56 || which == 57
                || which == 63 || which == 64 ==> *final(self) == *old(self),
            which == 220 ==> final(self).tm.current_task.pid == old(self).tm.current_task.pid
                && final(self).tm.current_task.trap_cx == old(self).tm.current_task.trap_cx,
            match which {
                17u64 | 34 | 49 | 56 | 57 | 63 | 64 => r == (SyscallOutcome::Forwarded { which }),
                93 => {
                    &&& r matches SyscallOutcome::Exited { pid, exit_code, slice }
                    &&& (r matches SyscallOutcome::Exited { pid, exit_code, slice }
                        ==> pid == old(self).tm.current_task.pid
                            && exit_code == args[0] as i32
                            && slice == time_slice_spec(final(self).tm.current_task.task_pos)
                            && exit_step(*old(self), *final(self), args[0] as i32))
                },
                124 => {
                    &&& r matches SyscallOutcome::Yielded { slice }
                    &&& (r matches SyscallOutcome::Yielded { slice }
                        ==> slice == time_slice_spec(final(self).tm.current_task.task_pos))
                    &&& yield_step(*old(self), *final(self),
                        old(self).tm.current_task.trap_cx.sepc)
                },
                169 => r == (SyscallOutcome::Ret { ret: (now / TICKS_PER_MSEC) as i64 }),
                172 => r == (SyscallOutcome::Ret {
                    ret: old(self).tm.current_task.pid as i64,
                }),
                220 => {
                    &&& r matches SyscallOutcome::Ret { ret }
                    &&& (r matches SyscallOutcome::Ret { ret }
                        ==> final(self).tm.schd.mlfq.fcfs1_queue@.len()
                                == old(self).tm.schd.mlfq.fcfs1_queue@.len() + 1
                            && ({
                                let child = final(self).tm.schd.mlfq.fcfs1_queue@.last();
                                &&& ret == child.pid as i64
                                &&& !old(self).pids.is_allocated(child.pid as int)
                                &&& final(self).pids.is_allocated(child.pid as int)
                                &&& child.parent == old(self).tm.current_task.pid
                                &&& child.task_status == TaskStatus::Ready
                                &&& child.task_pos == TaskPos::Fcfs1
                                &&& child.trap_cx.x[10] == 0
                                &&& child.trap_cx.sepc
                                    == old(self).tm.current_task.trap_cx.sepc
                                &&& (forall|k: int| 0 <= k < 32 && k != 10
                                    ==> child.trap_cx.x[k]
                                        == old(self).tm.current_task.trap_cx.x[k])
                                &&& same_user_content(old(self).tm.current_task.memory_set,
                                    child.memory_set)
                                &&& final(self).tm.current_task.children@
                                    == old(self).tm.current_task.children@.push(child.pid)
                            })
                            && final(self).tm.schd.mlfq.fcfs1_queue@
                                == old(self).tm.schd.mlfq.fcfs1_queue@.push(
                                    final(self).tm.schd.mlfq.fcfs1_queue@.last())
                            && final(self).tm.schd.mlfq.fcfs2_queue@
                                == old(self).tm.schd.mlfq.fcfs2_queue@
                            && final(self).tm.schd.mlfq.rr_queue@
                                == old(self).tm.schd.mlfq.rr_queue@
                            && final(self).tm.zombies@ == old(self).tm.zombies@
                            && final(self).tm.current_task.parent
                                == old(self).tm.current_task.parent
                            && final(self).tm.current_task.exit_code
                                == old(self).tm.current_task.exit_code
                            && final(self).tm.current_task.task_status
                                == old(self).tm.current_task.task_status
                            && final(self).tm.current_task.task_pos
                                == old(self).tm.current_task.task_pos
                            && final(self).tm.current_task.task_cx
                                == old(self).tm.current_task.task_cx
                            && final(self).tm.current_task.memory_set
                                == old(self).tm.current_task.memory_set
                            && final(self).tm.current_task.kernel_stack_top
                                == old(self).tm.current_task.kernel_stack_top)
                },
                _ => r == (SyscallOutcome::Unknown { which }),
            },
    {
        if which == 17 || which == 34 || which == 49 || which == 56 || which == 57
            || which == 63 || which == 64 {
            SyscallOutcome::Forwarded { which }
        } else if which == 93 {
            let pid = self.tm.current_task.pid;
            let exit_code = args[0] as i32;
            let slice = self.exit_current(exit_code);
            SyscallOutcome::Exited { pid, exit_code, slice }
        } else if which == 124 {
            let (_zero, slice) = self.sys_yield();
            SyscallOutcome::Yielded { slice }
        } else if which == 169 {
            SyscallOutcome::Ret { ret: sys_get_time(now) }
        } else if which == 172 {
            SyscallOutcome::Ret { ret: self.tm.current_task.pid as i64 }
        } else if which == 220 {
            let child_pid = self.fork_current();
            SyscallOutcome::Ret { ret: child_pid as i64 }
        } else {
            SyscallOutcome::Unknown { which }
        }
    }

    /// The yield syscall: write the return value zero into the yielding
    /// task's x10 (the register the wire convention fixes), then give up
    /// the hart; returns that zero and the slice to arm for the task now
    /// running.
    pub fn sys_yield(&mut self) -> (r: (i64, u64))
        requires
            old(self).wf(),
        ensures
            final(self).wf(),
            r.0 == 0,
            r.1 == time_slice_spec(final(self).tm.current_task.task_pos),
            forall|p: u64| cnt(final(self).tm.all_pcbs(), p) == cnt(old(self).tm.all_pcbs(), p),
            yield_step(*old(self), *final(self), old(self).tm.current_task.trap_cx.sepc),
    {
        let ghost pre = *self;
        self.tm.current_task.trap_cx.x.set(10, 0);
        proof {
            lemma_wf_current_update(pre, *self);
        }
        let ghost zeroed = *self;
        let slice = self.tm.switch_to_next_task();
        proof {
            lemma_yield_step_holds(pre, zeroed, *self);
            assert forall|p: u64| cnt(self.tm.all_pcbs(), p) == cnt(pre.tm.all_pcbs(), p) by {
                lemma_cnt_all_parts(pre.tm, p);
                lemma_cnt_all_parts(zeroed.tm, p);
                lemma_cnt_single(pre.tm.current_task, p);
                lemma_cnt_single(zeroed.tm.current_task, p);
            };
        }
        (0, slice)
    }

    /// Deliver the value a delegated file-system call produced: write it
    /// to the current task's x10, the return register of the wire
    /// convention, touching nothing else.
    pub fn complete_forwarded(&mut self, ret: i64)
        requires
            old(self).wf(),
        ensures
            final(self).wf(),
            final(self).tm.current_task.trap_cx.x[10] == #[verifier::truncate] (ret as u64),
            final(self).tm.current_task.trap_cx.sepc
                == old(self).tm.current_task.trap_cx.sepc,
            same_regs_except(old(self).tm.current_task.trap_cx,
                final(self).tm.current_task.trap_cx, 10),
            same_task_but_registers(old(self).tm.current_task, final(self).tm.current_task),
            queues_unchanged(*old(self), *final(self)),
            final(self).daemon_pid == old(self).daemon_pid,
            final(self).pids == old(self).pids,
            final(self).frames == old(self).frames,
            final(self).kernel_set == old(self).kernel_set,
    {
        let ghost pre = *self;
        self.tm.current_task.trap_cx.x.set(10, #[verifier::truncate] (ret as u64));
        proof {
            lemma_wf_current_update(pre, *self);
        }
    }

    /// One timer tick or voluntary yield: schedule the next task and say
    /// which slice to arm.
    pub fn schedule_tick(&mut self) -> (slice: u64)
        requires
            old(self).wf(),
        ensures
            final(self).wf(),
            slice == time_slice_spec(final(self).tm.current_task.task_pos),
            forall|p: u64| cnt(final(self).tm.all_pcbs(), p) == cnt(old(self).tm.all_pcbs(), p),
            tick_step(*old(self), *final(self)),
    {
        self.tm.switch_to_next_task()
    }

    /// End the current process with `exit_code`: its children go to the
    /// daemon, every orphan's parent reference is rebound to the daemon,
    /// the process becomes a zombie, and the front of the highest
    /// non-empty queue runs next.  Its pid stays live until the exit is
    /// reaped.
    pub fn exit_current(&mut self, exit_code: i32) -> (slice: u64)
        requires
            old(self).wf(),
            old(self).tm.current_task.pid != old(self).daemon_pid,
            old(self).tm.schd.mlfq.total_len() > 0,
        ensures
            final(self).wf(),
            slice == time_slice_spec(final(self).tm.current_task.task_pos),
            forall|p: u64| cnt(final(self).tm.all_pcbs(), p) == cnt(old(self).tm.all_pcbs(), p),
            exit_step(*old(self), *final(self), exit_code),
    {
        let daemon_pid = self.daemon_pid;
        self.tm.exit_current(exit_code, daemon_pid)
    }

    /// Reap one exited child of the current process: hand back its pid
    /// and exit code and release the pid.  `None` when no matching child
    /// has exited.
    pub fn wait_pid(&mut self, pid: u64) -> (r: Option<(u64, i32)>)
        requires
            old(self).wf(),
        ensures
            final(self).wf(),
            final(self).daemon_pid == old(self).daemon_pid,
            match r {
                Some((p, code)) => p == pid
                    && !final(self).pids.is_allocated(pid as int)
                    && exists|i: int| 0 <= i < old(self).tm.zombies@.len()
                        && (#[trigger] old(self).tm.zombies@[i]).pid == pid
                        && old(self).tm.zombies@[i].parent == old(self).tm.current_task.pid
                        && code == old(self).tm.zombies@[i].exit_code,
                None => final(self).tm.zombies@ == old(self).tm.zombies@
                    && forall|i: int| 0 <= i < old(self).tm.zombies@.len()
                        ==> !((#[trigger] old(self).tm.zombies@[i]).pid == pid
                            && old(self).tm.zombies@[i].parent
                                == old(self).tm.current_task.pid),
            },
    {
        let ghost pre = *self;
        let r = self.tm.wait_pid(pid);
        match r {
            Some((p, code)) => {
                proof {
                    let i = choose|i: int| 0 <= i < pre.tm.zombies@.len()
                        && (#[trigger] pre.tm.zombies@[i]).pid == pid
                        && pre.tm.zombies@[i].parent == pre.tm.current_task.pid
                        && code == pre.tm.zombies@[i].exit_code
                        && self.tm.zombies@ == pre.tm.zombies@.remove(i);
                    assert(pre.tm.zombies@[i].pid == pid);
                    lemma_cnt_all_parts(pre.tm, pid);
                    crate::manager::lemma_cnt_elem(pre.tm.zombies@, pid, i);
                    crate::manager::lemma_cnt_nonneg(seq![pre.tm.current_task], pid);
                    crate::manager::lemma_cnt_nonneg(pre.tm.schd.mlfq.fcfs1_queue@, pid);
                    crate::manager::lemma_cnt_nonneg(pre.tm.schd.mlfq.fcfs2_queue@, pid);
                    crate::manager::lemma_cnt_nonneg(pre.tm.schd.mlfq.rr_queue@, pid);
                    assert(cnt(pre.tm.all_pcbs(), pid) >= 1);
                    assert(pre.pids.is_allocated(pid as int));
                }
                let ghost zmid = self.tm.zombies@;
                self.pids.dealloc(p);
                proof {
                    let i = choose|i: int| 0 <= i < pre.tm.zombies@.len()
                        && (#[trigger] pre.tm.zombies@[i]).pid == pid
                        && pre.tm.zombies@[i].parent == pre.tm.current_task.pid
                        && code == pre.tm.zombies@[i].exit_code
                        && zmid == pre.tm.zombies@.remove(i);
                    assert(self.tm.zombies@ == pre.tm.zombies@.remove(i));
                    assert(pre.tm.zombies@[i].pid == pid);
                    assert forall|q: u64| cnt(self.tm.all_pcbs(), q)
                        == (if self.pids.is_allocated(q as int) { 1int } else { 0int }) by {
                        lemma_cnt_all_parts(pre.tm, q);
                        lemma_cnt_all_parts(self.tm, q);
                        lemma_cnt_remove(pre.tm.zombies@, i, q);
                        if q == pid {
                            crate::manager::lemma_cnt_elem(pre.tm.zombies@, pid, i);
                            crate::manager::lemma_cnt_nonneg(seq![pre.tm.current_task], q);
                            crate::manager::lemma_cnt_nonneg(pre.tm.schd.mlfq.fcfs1_queue@, q);
                            crate::manager::lemma_cnt_nonneg(pre.tm.schd.mlfq.fcfs2_queue@, q);
                            crate::manager::lemma_cnt_nonneg(pre.tm.schd.mlfq.rr_queue@, q);
                        }
                    };
                }
                proof {
                    assert(self.wf());
                }
                Some((p, code))
            },
            None => {
                proof {
                    assert forall|q: u64| cnt(self.tm.all_pcbs(), q)
                        == (if self.pids.is_allocated(q as int) { 1int } else { 0int }) by {
                        lemma_cnt_all_parts(pre.tm, q);
                        lemma_cnt_all_parts(self.tm, q);
                    };
                    assert(self.wf());
                }
                None
            },
        }
    }

    /// Whether a fork can be served: a fresh pid and enough frames exist.
    /// Exhausting either under load is kernel-fatal.
    pub open spec fn fork_allowed(self) -> bool {
        &&& self.pids.current < u64::MAX
        &&& (self.pids.current + 1) * (KERNEL_STACK_SIZE + PAGE_SIZE) <= TRAMPOLINE
        &&& self.frames.free_count()
            >= 3 * self.tm.current_task.memory_set.total_seg_pages() + 3
        &&& self.tm.current_task.memory_set.trampoline_mapped()
        &&& self.tm.current_task.memory_set.segments_below_trampoline()
        &&& forall|i: int| 0 <= i < self.tm.current_task.memory_set.segments@.len()
            ==> (#[trigger] self.tm.current_task.memory_set.segments@[i]).len_bytes()
                <= usize::MAX
    }

    /// Fork the current process: the child gets a fresh pid, a copy of
    /// the address space, and the parent's registers except that its x10
    /// (the fork return value) is zero; it enters the first queue.  The
    /// parent's child list gains the new pid, and the caller hands the
    /// child's pid back to the parent.
    pub fn fork_current(&mut self) -> (child: u64)
        requires
            old(self).wf(),
            old(self).fork_allowed(),
        ensures
            final(self).wf(),
            final(self).daemon_pid == old(self).daemon_pid,
            !old(self).pids.is_allocated(child as int),
            final(self).pids.is_allocated(child as int),
            final(self).tm.schd.mlfq.fcfs1_queue@.len()
                == old(self).tm.schd.mlfq.fcfs1_queue@.len() + 1,
            ({
                let c = final(self).tm.schd.mlfq.fcfs1_queue@.last();
                &&& c.pid == child
                &&& c.parent == old(self).tm.current_task.pid
                &&& c.task_status == TaskStatus::Ready
                &&& c.task_pos == TaskPos::Fcfs1
                &&& c.trap_cx.x[10] == 0
                &&& c.trap_cx.sepc == old(self).tm.current_task.trap_cx.sepc
                &&& c.trap_cx.sstatus == old(self).tm.current_task.trap_cx.sstatus
                &&& forall|k: int| 0 <= k < 32 && k != 10
                    ==> c.trap_cx.x[k] == old(self).tm.current_task.trap_cx.x[k]
                &&& same_user_content(old(self).tm.current_task.memory_set, c.memory_set)
            }),
            final(self).tm.schd.mlfq.fcfs1_queue@ == old(self).tm.schd.mlfq.fcfs1_queue@.push(
                final(self).tm.schd.mlfq.fcfs1_queue@.last()),
            final(self).tm.schd.mlfq.fcfs2_queue@ == old(self).tm.schd.mlfq.fcfs2_queue@,
            final(self).tm.schd.mlfq.rr_queue@ == old(self).tm.schd.mlfq.rr_queue@,
            final(self).tm.zombies@ == old(self).tm.zombies@,
            final(self).tm.current_task.children@
                == old(self).tm.current_task.children@.push(child),
            final(self).tm.current_task.pid == old(self).tm.current_task.pid,
            final(self).tm.current_task.trap_cx == old(self).tm.current_task.trap_cx,
            final(self).tm.current_task.parent == old(self).tm.current_task.parent,
            final(self).tm.current_task.exit_code == old(self).tm.current_task.exit_code,
            final(self).tm.current_task.task_status == old(self).tm.current_task.task_status,
            final(self).tm.current_task.task_pos == old(self).tm.current_task.task_pos,
            final(self).tm.current_task.task_cx == old(self).tm.current_task.task_cx,
            final(self).tm.current_task.memory_set == old(self).tm.current_task.memory_set,
            final(self).tm.current_task.kernel_stack_top
                == old(self).tm.current_task.kernel_stack_top,
    {
        let ghost pre = *self;
        let child_pid = self.pids.allocate();
        proof {
            let k = (KERNEL_STACK_SIZE + PAGE_SIZE) as int;
            assert((child_pid as int + 1) * k <= (pre.pids.current as int + 1) * k)
                by (nonlinear_arith)
                requires child_pid as int <= pre.pids.current as int, k > 0;
        }
        let (_kbottom, ktop) = kernel_stack_position(child_pid);
        let child_set = self.tm.current_task.memory_set.clone_space(&mut self.frames);
        let parent_cx = &self.tm.current_task.trap_cx;
        let mut x = copy_words(&parent_cx.x);
        x.set(10, 0);
        let child_trap_cx = TrapContext {
            x,
            sstatus: parent_cx.sstatus,
            sepc: parent_cx.sepc,
            kernel_satp: parent_cx.kernel_satp,
            kernel_sp: ktop,
            trap_handler: parent_cx.trap_handler,
        };
        let child_task_cx = TaskContext::goto_trap_return(ktop, self.trap_return_va);
        let parent_pid = self.tm.current_task.pid;
        let child = ProcessControlBlock {
            pid: child_pid,
            parent: parent_pid,
            children: Vec::new(),
            exit_code: 0,
            task_status: TaskStatus::Ready,
            task_pos: TaskPos::Fcfs1,
            task_cx: child_task_cx,
            trap_cx: child_trap_cx,
            memory_set: child_set,
            kernel_stack_top: ktop,
        };
        let ghost child_g = child;
        self.tm.current_task.children.push(child_pid);
        let ghost mid = *self;
        proof {
            assert forall|q: u64| cnt(mid.tm.all_pcbs(), q) == cnt(pre.tm.all_pcbs(), q) by {
                lemma_cnt_all_parts(pre.tm, q);
                lemma_cnt_all_parts(mid.tm, q);
                lemma_cnt_single(pre.tm.current_task, q);
                lemma_cnt_single(mid.tm.current_task, q);
            };
            assert forall|q: u64| cnt(mid.tm.all_pcbs(), q) <= 1 by {
                assert(cnt(mid.tm.all_pcbs(), q) == cnt(pre.tm.all_pcbs(), q));
            };
            assert(mid.tm.wf());
            assert forall|q: u64| cnt(mid.tm.all_pcbs(), q)
                + cnt(seq![child_g], q) <= 1 || cnt(seq![child_g], q) == 0 by {
                lemma_cnt_single(child_g, q);
                assert(cnt(mid.tm.all_pcbs(), q) == cnt(pre.tm.all_pcbs(), q));
            };
        }
        self.tm.add_new_task(child);
        proof {
            let moved = ProcessControlBlock { task_pos: TaskPos::Fcfs1, ..child_g };
            assert forall|q: u64| cnt(self.tm.all_pcbs(), q)
                == (if self.pids.is_allocated(q as int) { 1int } else { 0int }) by {
                lemma_cnt_all_parts(pre.tm, q);
                lemma_cnt_all_parts(mid.tm, q);
                lemma_cnt_all_parts(self.tm, q);
                lemma_cnt_single(pre.tm.current_task, q);
                lemma_cnt_single(mid.tm.current_task, q);
                lemma_cnt_push(mid.tm.schd.mlfq.fcfs1_queue@, moved, q);
            };
            assert(self.tm.schd.mlfq.fcfs1_queue@.last() == moved);
        }
        child_pid
    }
}

/// The get_time syscall: the system clock in milliseconds, from the
/// timer tick count the caller read.
pub fn sys_get_time(now: u64) -> (r: i64)
    ensures
        r == (now / TICKS_PER_MSEC) as i64,
{
    (now / TICKS_PER_MSEC) as i64
}

/// Updating fields of the current task that leave its pid, status and
/// well-formedness alone preserves the kernel invariant.
proof fn lemma_wf_current_update(pre: Kernel, post: Kernel)
    requires
        pre.wf(),
        post.frames == pre.frames,
        post.pids == pre.pids,
        post.kernel_set == pre.kernel_set,
        post.trampoline_ppn == pre.trampoline_ppn,
        post.tm.schd == pre.tm.schd,
        post.tm.zombies == pre.tm.zombies,
        post.tm.current_task.pid == pre.tm.current_task.pid,
        post.tm.current_task.task_status == pre.tm.current_task.task_status,
        post.tm.current_task.wf(),
    ensures
        post.wf(),
{
    assert forall|p: u64| cnt(post.tm.all_pcbs(), p) == cnt(pre.tm.all_pcbs(), p) by {
        lemma_cnt_all_parts(pre.tm, p);
        lemma_cnt_all_parts(post.tm, p);
        lemma_cnt_single(pre.tm.current_task, p);
        lemma_cnt_single(post.tm.current_task, p);
    };
}


/// From the zeroed-x10 intermediate state through one switch, the whole
/// yield step holds against the original state.
proof fn lemma_yield_step_holds(pre: Kernel, zeroed: Kernel, post: Kernel)
    requires
        pre.wf(),
        // `zeroed` is `pre` with zero written to the current task's x10
        zeroed.daemon_pid == pre.daemon_pid,
        zeroed.pids == pre.pids,
        zeroed.frames == pre.frames,
        zeroed.kernel_set == pre.kernel_set,
        zeroed.tm.schd == pre.tm.schd,
        zeroed.tm.zombies == pre.tm.zombies,
        same_task_but_registers(pre.tm.current_task, zeroed.tm.current_task),
        zeroed.tm.current_task.trap_cx.x@ == pre.tm.current_task.trap_cx.x@.update(10, 0u64),
        zeroed.tm.current_task.trap_cx.sepc == pre.tm.current_task.trap_cx.sepc,
        zeroed.tm.current_task.trap_cx.sstatus == pre.tm.current_task.trap_cx.sstatus,
        zeroed.tm.current_task.trap_cx.kernel_satp == pre.tm.current_task.trap_cx.kernel_satp,
        zeroed.tm.current_task.trap_cx.kernel_sp == pre.tm.current_task.trap_cx.kernel_sp,
        zeroed.tm.current_task.trap_cx.trap_handler
            == pre.tm.current_task.trap_cx.trap_handler,
        // what the switch did to `zeroed`
        post.daemon_pid == zeroed.daemon_pid,
        post.pids == zeroed.pids,
        post.frames == zeroed.frames,
        post.kernel_set == zeroed.kernel_set,
        post.tm.current_task.task_status == TaskStatus::Running,
        if zeroed.tm.keeps_hart() {
            post.tm.current_task == (ProcessControlBlock {
                task_pos: demote(zeroed.tm.current_task.task_pos),
                task_status: TaskStatus::Running,
                ..zeroed.tm.current_task
            }) && post.tm.schd.mlfq.fcfs1_queue@ == zeroed.tm.schd.mlfq.fcfs1_queue@
                && post.tm.schd.mlfq.fcfs2_queue@ == zeroed.tm.schd.mlfq.fcfs2_queue@
                && post.tm.schd.mlfq.rr_queue@ == zeroed.tm.schd.mlfq.rr_queue@
                && post.tm.zombies@ == zeroed.tm.zombies@
        } else {
            post.tm.current_task == (ProcessControlBlock {
                task_status: TaskStatus::Running,
                ..next_of(zeroed.tm.schd.mlfq)
            }) && post.tm.zombies@ == zeroed.tm.zombies@
                && (exists|mid: MultilevelFeedbackQueue|
                    #[trigger] pop_step(zeroed.tm.schd.mlfq, mid)
                        && requeue_step(mid, post.tm.schd.mlfq, ProcessControlBlock {
                            task_status: TaskStatus::Ready,
                            ..zeroed.tm.current_task
                        }))
        },
    ensures
        yield_step(pre, post, pre.tm.current_task.trap_cx.sepc),
{
    let a = pre.tm.current_task;
    let z = zeroed.tm.current_task;
    let sepc = a.trap_cx.sepc;
    assert(a.trap_cx.x.len() == 32);
    assert(zeroed.tm.keeps_hart() == pre.tm.keeps_hart());
    if zeroed.tm.keeps_hart() {
        assert(yielded_task(a, post.tm.current_task, sepc, TaskStatus::Running));
    } else {
        let moved = ProcessControlBlock { task_status: TaskStatus::Ready, ..z };
        let mid = choose|mid: MultilevelFeedbackQueue|
            #[trigger] pop_step(zeroed.tm.schd.mlfq, mid)
                && requeue_step(mid, post.tm.schd.mlfq, moved);
        let pushed = ProcessControlBlock { task_pos: demote(moved.task_pos), ..moved };
        assert(pop_step(pre.tm.schd.mlfq, mid));
        assert(yielded_task(a, pushed, sepc, TaskStatus::Ready));
        match demote(a.task_pos) {
            TaskPos::Fcfs2 => {
                assert(post.tm.schd.mlfq.fcfs2_queue@ == mid.fcfs2_queue@.push(pushed));
                assert(post.tm.schd.mlfq.fcfs2_queue@.subrange(
                    0, mid.fcfs2_queue@.len() as int) =~= mid.fcfs2_queue@);
                assert(post.tm.schd.mlfq.fcfs2_queue@.last() == pushed);
            },
            TaskPos::Rr => {
                assert(post.tm.schd.mlfq.rr_queue@ == mid.rr_queue@.push(pushed));
                assert(post.tm.schd.mlfq.rr_queue@.subrange(
                    0, mid.rr_queue@.len() as int) =~= mid.rr_queue@);
                assert(post.tm.schd.mlfq.rr_queue@.last() == pushed);
            },
            TaskPos::Fcfs1 => {
                assert(false);
            },
        }
        assert(yield_requeued(mid, post.tm.schd.mlfq, a, sepc));
        assert(next_of(pre.tm.schd.mlfq) == next_of(zeroed.tm.schd.mlfq));
    }
}


/// The yield step is insensitive to the yielding task's saved program
/// counter: two pre-states that differ only there yield the same step.
proof fn lemma_yield_step_same_pre(pre1: Kernel, pre2: Kernel, post: Kernel, sepc: u64)
    requires
        pre2.daemon_pid == pre1.daemon_pid,
        pre2.pids == pre1.pids,
        pre2.frames == pre1.frames,
        pre2.kernel_set == pre1.kernel_set,
        pre2.tm.schd == pre1.tm.schd,
        pre2.tm.zombies == pre1.tm.zombies,
        same_task_but_registers(pre1.tm.current_task, pre2.tm.current_task),
        pre2.tm.current_task.trap_cx.x == pre1.tm.current_task.trap_cx.x,
        pre2.tm.current_task.trap_cx.sstatus == pre1.tm.current_task.trap_cx.sstatus,
        pre2.tm.current_task.trap_cx.kernel_satp == pre1.tm.current_task.trap_cx.kernel_satp,
        pre2.tm.current_task.trap_cx.kernel_sp == pre1.tm.current_task.trap_cx.kernel_sp,
        pre2.tm.current_task.trap_cx.trap_handler
            == pre1.tm.current_task.trap_cx.trap_handler,
        yield_step(pre2, post, sepc),
    ensures
        yield_step(pre1, post, sepc),
{
    assert(pre1.tm.keeps_hart() == pre2.tm.keeps_hart());
    if pre2.tm.keeps_hart() {
        assert(yielded_task(pre1.tm.current_task, post.tm.current_task, sepc,
            TaskStatus::Running));
    } else {
        let mid = choose|mid: MultilevelFeedbackQueue|
            #[trigger] pop_step(pre2.tm.schd.mlfq, mid)
                && yield_requeued(mid, post.tm.schd.mlfq, pre2.tm.current_task, sepc);
        assert(pop_step(pre1.tm.schd.mlfq, mid));
        assert(yield_requeued(mid, post.tm.schd.mlfq, pre1.tm.current_task, sepc));
    }
}

/// A copy of a register file.
fn copy_words(src: &Vec<u64>) -> (r: Vec<u64>)
    ensures
        r@ == src@,
{
    let mut out: Vec<u64> = Vec::new();
    let mut i: usize = 0;
    while i < src.len()
        invariant
            i <= src@.len(),
            out@ =~= src@.subrange(0, i as int),
        decreases src@.len() - i,
    {
        out.push(src[i]);
        proof {
            assert(out@ =~= src@.subrange(0, i as int + 1));
        }
        i = i + 1;
    }
    proof {
        assert(out@ =~= src@);
    }
    out
}

/// Every live pid names exactly one PCB, and every owned PCB's pid is
/// live: pid accounting never drifts.
pub proof fn lemma_pid_in_exactly_one_pcb(k: Kernel)
    requires
        k.wf(),
    ensures
        forall|p: u64| k.pids.is_allocated(p as int) ==> cnt(k.tm.all_pcbs(), p) == 1,
        forall|p: u64| cnt(k.tm.all_pcbs(), p) >= 1 ==> k.pids.is_allocated(p as int),
{
}

} // verus!
