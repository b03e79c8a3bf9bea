use rusted_os::config::{
    TASK_QUEUE_FCFS1_SLICE, TASK_QUEUE_FCFS2_SLICE, TASK_QUEUE_RR_SLICE, TICKS_PER_MSEC,
};
use rusted_os::kernel::{Kernel, TrapOutcome};
use rusted_os::memory_set::KernelLayout;
use rusted_os::schd::{get_default_time_slice, get_time_slice};
use rusted_os::task::TaskPos;

fn tiny_elf(data: &[u8]) -> Vec<u8> {
    let mut b = vec![0u8; 120 + data.len()];
    b[0] = 0x7f;
    b[1] = 0x45;
    b[2] = 0x4c;
    b[3] = 0x46;
    b[4] = 2;
    b[5] = 1;
    b[25] = 0x10; // entry = 0x1000
    b[32] = 64; // phoff
    b[54] = 56; // phentsize
    b[56] = 1; // phnum
    b[64] = 1; // PT_LOAD
    b[68] = 5; // R | X
    b[72] = 120; // offset
    b[81] = 0x10; // vaddr = 0x1000
    b[96] = data.len() as u8;
    b[104] = data.len() as u8;
    for (i, &d) in data.iter().enumerate() {
        b[120 + i] = d;
    }
    b
}

fn boot() -> Kernel {
    let layout = KernelLayout {
        text_start: 0x80200000,
        text_end: 0x80201000,
        rodata_start: 0x80201000,
        rodata_end: 0x80202000,
        data_start: 0x80202000,
        data_end: 0x80203000,
        bss_start: 0x80203000,
        bss_end: 0x80204000,
        kernel_end: 0x80205000,
        memory_end: 0x80400000,
        trampoline_pa: 0x80200000,
    };
    let daemon = tiny_elf(&[0x13, 0x00, 0x00, 0x00]);
    Kernel::init(&layout, &daemon, 0x80200100, 0x80200200).unwrap()
}

const BREAKPOINT: u64 = 3;
const ENVIRONMENT_CALL: u64 = 8;
const INSTRUCTION_PAGE_FAULT: u64 = 12;
const TIMER: u64 = 0x8000000000000005;

fn ecall(k: &mut Kernel, which: u64, a0: u64) -> TrapOutcome {
    k.tm.current_task.trap_cx.x[17] = which;
    k.tm.current_task.trap_cx.x[10] = a0;
    k.handle_trap(ENVIRONMENT_CALL, 0, 0)
}

#[test]
fn boot_starts_the_daemon_running() {
    let k = boot();
    assert_eq!(k.daemon_pid, 0);
    assert_eq!(k.get_current_process().pid, 0);
    assert_eq!(k.get_current_process().trap_cx.sepc, 0x1000);
    assert!(k.pids.is_live(0));
    assert!(!k.pids.is_live(1));
}

#[test]
fn time_slices_follow_the_three_levels() {
    assert_eq!(get_time_slice(TaskPos::Fcfs1), 5 * TICKS_PER_MSEC);
    assert_eq!(get_time_slice(TaskPos::Fcfs2), 10 * TICKS_PER_MSEC);
    assert_eq!(get_time_slice(TaskPos::Rr), 20 * TICKS_PER_MSEC);
    assert_eq!(get_default_time_slice(), TASK_QUEUE_FCFS1_SLICE);
    assert_eq!(TASK_QUEUE_FCFS2_SLICE, 125000);
    assert_eq!(TASK_QUEUE_RR_SLICE, 250000);
}

#[test]
fn breakpoint_advances_sepc_by_two_and_resumes() {
    let mut k = boot();
    let img = tiny_elf(&[1]);
    let p = k.spawn(&img).unwrap();
    k.handle_trap(TIMER, 0, 0);
    assert_eq!(k.get_current_process().pid, p);
    let sepc_before = k.get_current_process().trap_cx.sepc;
    let out = k.handle_trap(BREAKPOINT, 0, 0);
    // printed once by the caller, from this single outcome
    assert_eq!(out, TrapOutcome::Breakpoint { sepc: sepc_before + 2 });
    assert_eq!(k.get_current_process().trap_cx.sepc, sepc_before + 2);
    // the same process is still current and can still exit normally
    assert_eq!(k.get_current_process().pid, p);
    let out = ecall(&mut k, 93, 0);
    assert!(matches!(
        out,
        TrapOutcome::ProcessExited { pid, exit_code: 0, slice: _ } if pid == p
    ));
}

#[test]
fn unknown_trap_cause_is_a_kernel_panic() {
    let mut k = boot();
    let out = k.handle_trap(0x1234, 0x99, 0);
    assert_eq!(out, TrapOutcome::KernelPanic { scause: 0x1234, stval: 0x99 });
}

#[test]
fn unknown_syscall_number_is_a_kernel_panic() {
    let mut k = boot();
    let out = ecall(&mut k, 999, 0);
    assert!(matches!(out, TrapOutcome::KernelPanic { .. }));
}

#[test]
fn get_time_reports_milliseconds() {
    let mut k = boot();
    k.tm.current_task.trap_cx.x[17] = 169;
    let out = k.handle_trap(ENVIRONMENT_CALL, 0, 25 * TICKS_PER_MSEC);
    assert_eq!(out, TrapOutcome::SyscallReturn { ret: 25 });
    assert_eq!(k.get_current_process().trap_cx.x[10], 25);
}

#[test]
fn getpid_returns_the_current_pid() {
    let mut k = boot();
    let out = ecall(&mut k, 172, 0);
    assert_eq!(out, TrapOutcome::SyscallReturn { ret: 0 });
}

#[test]
fn file_syscalls_are_forwarded_and_completed() {
    let mut k = boot();
    let out = ecall(&mut k, 64, 1);
    assert_eq!(out, TrapOutcome::SyscallForwarded { which: 64 });
    // the argument register is untouched until the result comes back
    assert_eq!(k.get_current_process().trap_cx.x[10], 1);
    k.complete_forwarded(-1);
    assert_eq!(k.get_current_process().trap_cx.x[10], (-1i64) as u64);
}

#[test]
fn yield_demotes_exactly_one_level_to_the_back() {
    let mut k = boot();
    let img = tiny_elf(&[1, 2, 3]);
    let other = k.spawn(&img).unwrap();
    // the daemon runs at the first level and yields before its slice ends
    assert_eq!(k.get_current_process().task_pos, TaskPos::Fcfs1);
    k.tm.current_task.trap_cx.x[11] = 0xBEEF;
    let sepc_before = k.get_current_process().trap_cx.sepc;
    let out = ecall(&mut k, 124, 99);
    // the other task takes over; the timer is armed with its slice
    assert_eq!(out, TrapOutcome::Scheduled { slice: TASK_QUEUE_FCFS1_SLICE });
    assert_eq!(k.get_current_process().pid, other);
    // the preempted task sits at the back of the second queue, one level
    // down, with zero in its return register, past the ecall, and its
    // other registers intact
    let back = k.tm.schd.mlfq.fcfs2_queue.back().unwrap();
    assert_eq!(back.pid, 0);
    assert_eq!(back.task_pos, TaskPos::Fcfs2);
    assert_eq!(back.trap_cx.x[10], 0);
    assert_eq!(back.trap_cx.x[11], 0xBEEF);
    assert_eq!(back.trap_cx.sepc, sepc_before + 4);
    assert!(k.tm.schd.mlfq.fcfs1_queue.is_empty());
}

#[test]
fn fresh_task_keeps_the_hart_when_nothing_outranks_it() {
    // requeue-then-pick: a first-level task whose demoted queue would hold
    // only itself runs on, one level lower, even with round-robin work queued
    let mut k = boot();
    let img = tiny_elf(&[1]);
    let a = k.spawn(&img).unwrap();
    k.handle_trap(TIMER, 0, 0); // current: a (Fcfs1), f2 holds the daemon
    k.handle_trap(TIMER, 0, 0); // current: daemon (Fcfs2), f2 holds a
    k.handle_trap(TIMER, 0, 0); // current: a (Fcfs2), rr holds the daemon
    assert_eq!(k.get_current_process().pid, a);
    assert_eq!(k.get_current_process().task_pos, TaskPos::Fcfs2);
    let b = k.spawn(&img).unwrap();
    let out = k.handle_trap(TIMER, 0, 0); // current: b (Fcfs1), rr: daemon, a
    assert_eq!(out, TrapOutcome::Scheduled { slice: TASK_QUEUE_FCFS1_SLICE });
    assert_eq!(k.get_current_process().pid, b);
    assert_eq!(k.tm.schd.mlfq.rr_queue.len(), 2);
    // b at the first level, the other queues empty: after its demotion to
    // the second level nothing outranks it, so b keeps the hart
    let out = k.handle_trap(TIMER, 0, 0);
    assert_eq!(out, TrapOutcome::Scheduled { slice: TASK_QUEUE_FCFS2_SLICE });
    assert_eq!(k.get_current_process().pid, b);
    assert_eq!(k.get_current_process().task_pos, TaskPos::Fcfs2);
    assert_eq!(k.tm.schd.mlfq.rr_queue.len(), 2);
}

#[test]
fn cpu_bound_task_reaches_rr_after_exactly_two_demotions() {
    let mut k = boot();
    let img = tiny_elf(&[1]);
    let a = k.spawn(&img).unwrap();
    // tick 1: daemon Fcfs1 -> Fcfs2, task a runs from Fcfs1
    let out = k.handle_trap(TIMER, 0, 0);
    assert_eq!(out, TrapOutcome::Scheduled { slice: TASK_QUEUE_FCFS1_SLICE });
    assert_eq!(k.get_current_process().pid, a);
    // tick 2 = first demotion of a: Fcfs1 -> Fcfs2
    let out = k.handle_trap(TIMER, 0, 0);
    assert_eq!(out, TrapOutcome::Scheduled { slice: TASK_QUEUE_FCFS2_SLICE });
    assert_eq!(k.tm.schd.mlfq.fcfs2_queue.back().unwrap().pid, a);
    assert_eq!(k.tm.schd.mlfq.fcfs2_queue.back().unwrap().task_pos, TaskPos::Fcfs2);
    // tick 3: a runs again from Fcfs2
    let out = k.handle_trap(TIMER, 0, 0);
    assert_eq!(out, TrapOutcome::Scheduled { slice: TASK_QUEUE_FCFS2_SLICE });
    assert_eq!(k.get_current_process().pid, a);
    // tick 4 = second demotion of a: Fcfs2 -> Rr, and it stays there
    let out = k.handle_trap(TIMER, 0, 0);
    assert!(matches!(out, TrapOutcome::Scheduled { .. }));
    assert_eq!(k.tm.schd.mlfq.rr_queue.back().unwrap().pid, a);
    assert_eq!(k.tm.schd.mlfq.rr_queue.back().unwrap().task_pos, TaskPos::Rr);
}

#[test]
fn page_fault_kills_the_process_and_reparents_its_children() {
    let mut k = boot();
    let img = tiny_elf(&[1]);
    let child = k.spawn(&img).unwrap();
    // run the child
    k.handle_trap(TIMER, 0, 0);
    assert_eq!(k.get_current_process().pid, child);
    // the child spawns a grandchild, then jumps to nowhere
    let grandchild = k.spawn(&img).unwrap();
    assert_eq!(k.get_current_process().children, vec![grandchild]);
    let sepc = k.get_current_process().trap_cx.sepc;
    let out = k.handle_trap(INSTRUCTION_PAGE_FAULT, 0, 0);
    assert!(matches!(
        out,
        TrapOutcome::ProcessKilled { pid, sepc: s, exit_code: -2, slice: _ }
            if pid == child && s == sepc
    ));
    // the fault line is printed from this one outcome; the child is a zombie
    assert_eq!(k.tm.zombies.last().unwrap().pid, child);
    assert_eq!(k.tm.zombies.last().unwrap().exit_code, -2);
    // the grandchild now belongs to the daemon
    let daemon = k
        .tm
        .schd
        .mlfq
        .fcfs2_queue
        .iter()
        .find(|p| p.pid == 0)
        .unwrap();
    assert!(daemon.children.contains(&grandchild));
    // and the scheduler picked the next task
    assert_eq!(k.get_current_process().pid, grandchild);
    assert_eq!(k.get_current_process().parent, 0);
}

#[test]
fn fork_returns_zero_to_child_and_pid_to_parent_and_wait_reaps() {
    let mut k = boot();
    let img = tiny_elf(&[5, 6, 7]);
    let parent = k.spawn(&img).unwrap();
    k.handle_trap(TIMER, 0, 0);
    assert_eq!(k.get_current_process().pid, parent);
    // mark a register so the child provably inherits it
    k.tm.current_task.trap_cx.x[11] = 0xDEAD;
    let out = ecall(&mut k, 220, 0);
    let child = match out {
        TrapOutcome::SyscallReturn { ret } => ret as u64,
        other => panic!("fork outcome: {:?}", other),
    };
    // the parent sees the child's pid in x10
    assert!(child != 0);
    assert_eq!(k.get_current_process().trap_cx.x[10], child);
    assert_eq!(k.get_current_process().children, vec![child]);
    // the child sees zero in x10, the same sepc, and the marked register
    let c = k.tm.schd.mlfq.fcfs1_queue.back().unwrap();
    assert_eq!(c.pid, child);
    assert_eq!(c.parent, parent);
    assert_eq!(c.trap_cx.x[10], 0);
    assert_eq!(c.trap_cx.x[11], 0xDEAD);
    assert_eq!(c.trap_cx.sepc, k.get_current_process().trap_cx.sepc);
    // nothing exited yet, so wait finds nothing
    assert_eq!(k.wait_pid(child), None);
    // run until the child is current, then it exits with code 7
    while k.get_current_process().pid != child {
        k.handle_trap(TIMER, 0, 0);
    }
    let out = ecall(&mut k, 93, 7);
    assert!(matches!(
        out,
        TrapOutcome::ProcessExited { pid, exit_code: 7, slice: _ } if pid == child
    ));
    // back to the parent, whose wait returns the pid and writes 7
    while k.get_current_process().pid != parent {
        k.handle_trap(TIMER, 0, 0);
    }
    assert_eq!(k.wait_pid(child), Some((child, 7)));
    // the pid is released exactly once
    assert!(!k.pids.is_live(child));
    assert_eq!(k.wait_pid(child), None);
}

#[test]
fn four_processes_exit_in_creation_order() {
    let mut k = boot();
    let img = tiny_elf(&[9]);
    let mut spawned = Vec::new();
    for _ in 0..4 {
        spawned.push(k.spawn(&img).unwrap());
    }
    assert_eq!(spawned, vec![1, 2, 3, 4]);
    // each process exits with code 0 the first time it owns the hart; the
    // daemon only ever yields to the timer
    let mut exit_order = Vec::new();
    let mut guard = 0;
    while exit_order.len() < 4 && guard < 100 {
        guard += 1;
        if k.get_current_process().pid == 0 {
            k.handle_trap(TIMER, 0, 0);
        } else {
            let pid = k.get_current_process().pid;
            let out = ecall(&mut k, 93, 0);
            assert!(matches!(
                out,
                TrapOutcome::ProcessExited { pid: p, exit_code: 0, slice: _ } if p == pid
            ));
            exit_order.push(pid);
        }
    }
    // strict FIFO within the level: exits follow creation order
    assert_eq!(exit_order, vec![1, 2, 3, 4]);
    // the four exits are observable until reaped, the daemon lives on
    assert_eq!(k.tm.zombies.len(), 4);
    assert!(k.pids.is_live(0));
}

#[test]
fn current_task_is_in_no_queue() {
    let mut k = boot();
    let img = tiny_elf(&[1]);
    for _ in 0..3 {
        k.spawn(&img).unwrap();
    }
    for _ in 0..7 {
        k.handle_trap(TIMER, 0, 0);
        let cur = k.get_current_process().pid;
        let in_q1 = k.tm.schd.mlfq.fcfs1_queue.iter().any(|p| p.pid == cur);
        let in_q2 = k.tm.schd.mlfq.fcfs2_queue.iter().any(|p| p.pid == cur);
        let in_rr = k.tm.schd.mlfq.rr_queue.iter().any(|p| p.pid == cur);
        assert!(!in_q1 && !in_q2 && !in_rr);
    }
}

#[test]
fn task_accounting_adds_up() {
    let mut k = boot();
    let img = tiny_elf(&[1]);
    for _ in 0..3 {
        k.spawn(&img).unwrap();
    }
    // one exits
    k.handle_trap(TIMER, 0, 0);
    ecall(&mut k, 93, 0);
    // queues + current + unreaped exits account for every live process
    let queued = k.tm.schd.mlfq.fcfs1_queue.len()
        + k.tm.schd.mlfq.fcfs2_queue.len()
        + k.tm.schd.mlfq.rr_queue.len();
    assert_eq!(queued + 1 + k.tm.zombies.len(), 4);
    // and every live pid appears in exactly one place
    for pid in 0..4u64 {
        let mut count = 0;
        if k.get_current_process().pid == pid {
            count += 1;
        }
        count += k.tm.schd.mlfq.fcfs1_queue.iter().filter(|p| p.pid == pid).count();
        count += k.tm.schd.mlfq.fcfs2_queue.iter().filter(|p| p.pid == pid).count();
        count += k.tm.schd.mlfq.rr_queue.iter().filter(|p| p.pid == pid).count();
        count += k.tm.zombies.iter().filter(|p| p.pid == pid).count();
        assert_eq!(count, 1);
        assert!(k.pids.is_live(pid));
    }
}
