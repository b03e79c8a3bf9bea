//! The task manager: the one running task, the scheduler queues, and the
//! exited tasks whose parent has not yet observed them.
//!
//! Exactly one PCB is current; it sits in no queue.  Every queued task is
//! Ready, every zombie Exited, and no pid appears twice.

use vstd::prelude::*;
use std::collections::VecDeque;
use crate::schd::{
    demote, demote_pos, get_time_slice, next_of, pop_step, requeue_step, time_slice_spec,
    MultilevelFeedbackQueue, SchdMaster,
};
use crate::task::{ProcessControlBlock, TaskPos, TaskStatus};

verus! {


/// How many of the tasks in `s` carry the pid `p`.
pub open spec fn cnt(s: Seq<ProcessControlBlock>, p: u64) -> int
    decreases s.len(),
{
    if s.len() == 0 {
        0
    } else {
        cnt(s.drop_last(), p) + if s.last().pid == p {
            1int
        } else {
            0int
        }
    }
}

/// Counting distributes over concatenation.
pub proof fn lemma_cnt_concat(a: Seq<ProcessControlBlock>, b: Seq<ProcessControlBlock>, p: u64)
    ensures
        cnt(a + b, p) == cnt(a, p) + cnt(b, p),
    decreases b.len(),
{
    if b.len() == 0 {
        assert(a + b =~= a);
    } else {
        lemma_cnt_concat(a, b.drop_last(), p);
        assert((a + b).drop_last() =~= a + b.drop_last());
        assert((a + b).last() == b.last());
    }
}

/// Counting one more pushed task.
pub proof fn lemma_cnt_push(s: Seq<ProcessControlBlock>, x: ProcessControlBlock, p: u64)
    ensures
        cnt(s.push(x), p) == cnt(s, p) + if x.pid == p {
            1int
        } else {
            0int
        },
{
    assert(s.push(x).drop_last() =~= s);
    assert(s.push(x).last() == x);
}

/// Counting splits off the front task.
pub proof fn lemma_cnt_front(s: Seq<ProcessControlBlock>, p: u64)
    requires
        s.len() > 0,
    ensures
        cnt(s, p) == (if s[0].pid == p {
            1int
        } else {
            0int
        }) + cnt(s.subrange(1, s.len() as int), p),
{
    let single = seq![s[0]];
    assert(s =~= single + s.subrange(1, s.len() as int));
    lemma_cnt_concat(single, s.subrange(1, s.len() as int), p);
    lemma_cnt_single(s[0], p);
}

/// The count of a one-task sequence.
pub proof fn lemma_cnt_single(x: ProcessControlBlock, p: u64)
    ensures
        cnt(seq![x], p) == if x.pid == p {
            1int
        } else {
            0int
        },
{
    let single = seq![x];
    assert(single.drop_last() =~= Seq::<ProcessControlBlock>::empty());
    assert(single.last() == x);
    assert(cnt(single.drop_last(), p) == 0);
}

/// A count is never negative.
pub proof fn lemma_cnt_nonneg(s: Seq<ProcessControlBlock>, p: u64)
    ensures
        cnt(s, p) >= 0,
    decreases s.len(),
{
    if s.len() > 0 {
        lemma_cnt_nonneg(s.drop_last(), p);
    }
}

/// A task with pid `p` at position `i` makes the count at least one.
pub proof fn lemma_cnt_elem(s: Seq<ProcessControlBlock>, p: u64, i: int)
    requires
        0 <= i < s.len(),
        s[i].pid == p,
    ensures
        cnt(s, p) >= 1,
    decreases s.len(),
{
    lemma_cnt_nonneg(s.drop_last(), p);
    if i < s.len() - 1 {
        lemma_cnt_elem(s.drop_last(), p, i);
    }
}

/// Two tasks with pid `p` at different positions make the count at least two.
pub proof fn lemma_cnt_two(s: Seq<ProcessControlBlock>, p: u64, i: int, j: int)
    requires
        0 <= i < j < s.len(),
        s[i].pid == p,
        s[j].pid == p,
    ensures
        cnt(s, p) >= 2,
    decreases s.len(),
{
    if j < s.len() - 1 {
        lemma_cnt_two(s.drop_last(), p, i, j);
        lemma_cnt_nonneg(s.drop_last(), p);
    } else {
        lemma_cnt_elem(s.drop_last(), p, i);
    }
}


/// Counts agree on sequences whose tasks carry the same pids pointwise.
pub proof fn lemma_cnt_pointwise(a: Seq<ProcessControlBlock>, b: Seq<ProcessControlBlock>, p: u64)
    requires
        a.len() == b.len(),
        forall|i: int| 0 <= i < a.len() ==> a[i].pid == b[i].pid,
    ensures
        cnt(a, p) == cnt(b, p),
    decreases a.len(),
{
    if a.len() > 0 {
        lemma_cnt_pointwise(a.drop_last(), b.drop_last(), p);
    }
}

/// Removing one task lowers the count by one when its pid matches.
pub proof fn lemma_cnt_remove(s: Seq<ProcessControlBlock>, i: int, p: u64)
    requires
        0 <= i < s.len(),
    ensures
        cnt(s.remove(i), p) == cnt(s, p) - (if s[i].pid == p {
            1int
        } else {
            0int
        }),
{
    let front = s.subrange(0, i);
    let midl = seq![s[i]];
    let back = s.subrange(i + 1, s.len() as int);
    assert(s =~= front + midl + back);
    assert(s.remove(i) =~= front + back);
    assert(front + midl + back =~= (front + midl) + back);
    lemma_cnt_concat(front + midl, back, p);
    lemma_cnt_concat(front, midl, p);
    lemma_cnt_concat(front, back, p);
    lemma_cnt_single(s[i], p);
}

/// How the three queues look after the children of `xpid` were handed to
/// the daemon `dpid`: same lengths, every task reparented in place.
pub open spec fn queues_reparented(
    pre: MultilevelFeedbackQueue,
    post: MultilevelFeedbackQueue,
    xpid: u64,
    dpid: u64,
    kids: Seq<u64>,
) -> bool {
    &&& post.fcfs1_queue@.len() == pre.fcfs1_queue@.len()
    &&& post.fcfs2_queue@.len() == pre.fcfs2_queue@.len()
    &&& post.rr_queue@.len() == pre.rr_queue@.len()
    &&& forall|i: int| 0 <= i < pre.fcfs1_queue@.len()
        ==> reparented(pre.fcfs1_queue@[i], #[trigger] post.fcfs1_queue@[i], xpid, dpid, kids)
    &&& forall|i: int| 0 <= i < pre.fcfs2_queue@.len()
        ==> reparented(pre.fcfs2_queue@[i], #[trigger] post.fcfs2_queue@[i], xpid, dpid, kids)
    &&& forall|i: int| 0 <= i < pre.rr_queue@.len()
        ==> reparented(pre.rr_queue@[i], #[trigger] post.rr_queue@[i], xpid, dpid, kids)
}

/// How `b` relates to `a` after the children of the process `xpid` were
/// handed to the daemon `dpid`: a parent reference to the dead process is
/// rebound to the daemon, the daemon's child list grows by the orphans,
/// and everything else is untouched.
pub open spec fn reparented(
    a: ProcessControlBlock,
    b: ProcessControlBlock,
    xpid: u64,
    dpid: u64,
    kids: Seq<u64>,
) -> bool {
    &&& b.pid == a.pid
    &&& b.parent == (if a.parent == xpid { dpid } else { a.parent })
    &&& b.children@ == (if a.pid == dpid { a.children@ + kids } else { a.children@ })
    &&& b.exit_code == a.exit_code
    &&& b.task_status == a.task_status
    &&& b.task_pos == a.task_pos
    &&& b.task_cx == a.task_cx
    &&& b.trap_cx == a.trap_cx
    &&& b.memory_set == a.memory_set
    &&& b.kernel_stack_top == a.kernel_stack_top
}

/// Append the ids in `src` to `dst`, in order.
fn append_ids(dst: &mut Vec<u64>, src: &Vec<u64>)
    ensures
        final(dst)@ == old(dst)@ + src@,
{
    let ghost d0 = dst@;
    let mut k: usize = 0;
    while k < src.len()
        invariant
            k <= src@.len(),
            dst@ =~= d0 + src@.subrange(0, k as int),
        decreases src@.len() - k,
    {
        dst.push(src[k]);
        proof {
            assert(dst@ =~= d0 + src@.subrange(0, k as int + 1));
        }
        k = k + 1;
    }
    proof {
        assert(dst@ =~= d0 + src@);
    }
}

/// Rebind parents and adopt orphans across one queue, keeping order.
fn reparent_queue(
    q: &mut VecDeque<ProcessControlBlock>,
    xpid: u64,
    dpid: u64,
    kids: &Vec<u64>,
)
    ensures
        final(q)@.len() == old(q)@.len(),
        forall|i: int| 0 <= i < old(q)@.len()
            ==> reparented(old(q)@[i], #[trigger] final(q)@[i], xpid, dpid, kids@),
{
    let ghost q0 = q@;
    let n = q.len();
    let mut i: usize = 0;
    while i < n
        invariant
            i <= n,
            n == q0.len(),
            q@.len() == n,
            forall|j: int| 0 <= j < n - i ==> q@[j] == q0[j + i],
            forall|j: int| n - i <= j < n
                ==> reparented(q0[j - (n - i)], #[trigger] q@[j], xpid, dpid, kids@),
        decreases n - i,
    {
        let ghost qpre = q@;
        let mut p = match q.pop_front() {
            Some(p) => p,
            None => {
                proof {
                    assert(false);
                }
                return;
            },
        };
        if p.parent == xpid {
            p.parent = dpid;
        }
        if p.pid == dpid {
            append_ids(&mut p.children, kids);
        }
        let ghost pg = p;
        q.push_back(p);
        proof {
            assert(q@ =~= qpre.subrange(1, n as int).push(pg));
            assert(reparented(q0[i as int], pg, xpid, dpid, kids@));
            assert forall|j: int| 0 <= j < n - (i + 1)
                implies q@[j] == q0[j + i + 1] by {
                assert(q@[j] == qpre[j + 1]);
            };
            assert forall|j: int| n - (i + 1) <= j < n
                implies reparented(q0[j - (n - i - 1)], #[trigger] q@[j], xpid, dpid, kids@) by {
                if j < n - 1 {
                    assert(q@[j] == qpre[j + 1]);
                } else {
                    assert(q@[j] == pg);
                }
            };
        }
        i = i + 1;
    }
}

/// Rebind parents and adopt orphans across the zombie list, keeping order.
fn reparent_vec(
    v: &mut Vec<ProcessControlBlock>,
    xpid: u64,
    dpid: u64,
    kids: &Vec<u64>,
)
    ensures
        final(v)@.len() == old(v)@.len(),
        forall|i: int| 0 <= i < old(v)@.len()
            ==> reparented(old(v)@[i], #[trigger] final(v)@[i], xpid, dpid, kids@),
{
    let ghost v0 = v@;
    let n = v.len();
    let mut i: usize = 0;
    while i < n
        invariant
            i <= n,
            n == v0.len(),
            v@.len() == n,
            forall|j: int| i <= j < n ==> v@[j] == v0[j],
            forall|j: int| 0 <= j < i
                ==> reparented(v0[j], #[trigger] v@[j], xpid, dpid, kids@),
        decreases n - i,
    {
        let ghost vpre = v@;
        let mut p = v.remove(i);
        if p.parent == xpid {
            p.parent = dpid;
        }
        if p.pid == dpid {
            append_ids(&mut p.children, kids);
        }
        let ghost pg = p;
        v.insert(i, p);
        proof {
            assert(v@ =~= vpre.update(i as int, pg));
            assert(reparented(v0[i as int], pg, xpid, dpid, kids@));
        }
        i = i + 1;
    }
}

/// The one running task, the queues of ready tasks, and the unreaped
/// exited tasks.
pub struct TaskManager {
    /// The task that owns the hart right now.
    pub current_task: ProcessControlBlock,
    /// The scheduler holding every Ready task.
    pub schd: SchdMaster,
    /// Exited tasks whose parent has not yet observed them.
    pub zombies: Vec<ProcessControlBlock>,
}

impl TaskManager {
    /// Every task this manager owns: the current one, then the queues in
    /// priority order, then the zombies.
    pub open spec fn all_pcbs(self) -> Seq<ProcessControlBlock> {
        seq![self.current_task] + self.schd.mlfq.all_tasks() + self.zombies@
    }

    /// The pids of every owned task, in the same order.
    pub open spec fn all_pids(self) -> Seq<u64> {
        self.all_pcbs().map_values(|p: ProcessControlBlock| p.pid)
    }

    pub open spec fn wf(self) -> bool {
        &&& self.current_task.wf()
        &&& self.schd.wf()
        &&& forall|i: int| 0 <= i < self.zombies@.len()
            ==> (#[trigger] self.zombies@[i]).wf()
                && self.zombies@[i].task_status == TaskStatus::Exited
        &&& forall|p: u64| cnt(self.all_pcbs(), p) <= 1
    }

    /// A fresh manager: the daemon is the current task; nothing is queued.
    pub fn new(daemon: ProcessControlBlock) -> (r: Self)
        requires
            daemon.wf(),
        ensures
            r.wf(),
            r.current_task == (ProcessControlBlock {
                task_status: TaskStatus::Running,
                ..daemon
            }),
            r.schd.mlfq.total_len() == 0,
            r.zombies@ =~= Seq::<ProcessControlBlock>::empty(),
    {
        let mut daemon = daemon;
        daemon.task_status = TaskStatus::Running;
        let r = TaskManager { current_task: daemon, schd: SchdMaster::new(), zombies: Vec::new() };
        proof {
            assert(r.schd.mlfq.all_tasks() =~= Seq::<ProcessControlBlock>::empty());
            assert(r.all_pcbs() =~= seq![r.current_task]);
            assert forall|p: u64| cnt(r.all_pcbs(), p) <= 1 by {
                lemma_cnt_single(r.current_task, p);
            };
        }
        r
    }



    /// End the current process: record its exit code, hand its children
    /// to the daemon, rebind every orphan's parent reference, mark the
    /// process Exited, and schedule the next task.  The daemon never
    /// exits, and some task must be runnable; both are kernel-fatal
    /// conditions excluded here.
    pub fn exit_current(&mut self, exit_code: i32, daemon_pid: u64) -> (slice: u64)
        requires
            old(self).wf(),
            old(self).current_task.pid != daemon_pid,
            old(self).schd.mlfq.total_len() > 0,
        ensures
            final(self).wf(),
            slice == time_slice_spec(final(self).current_task.task_pos),
            final(self).current_task.task_status == TaskStatus::Running,
            forall|p: u64| cnt(final(self).all_pcbs(), p) == cnt(old(self).all_pcbs(), p),
            final(self).zombies@.len() == old(self).zombies@.len() + 1,
            ({
                let gone = final(self).zombies@.last();
                &&& gone.pid == old(self).current_task.pid
                &&& gone.task_status == TaskStatus::Exited
                &&& gone.exit_code == exit_code
                &&& gone.children@.len() == 0
            }),
            ({
                let xpid = old(self).current_task.pid;
                let kids = old(self).current_task.children@;
                &&& forall|i: int| 0 <= i < old(self).zombies@.len()
                    ==> reparented(old(self).zombies@[i], #[trigger] final(self).zombies@[i],
                        xpid, daemon_pid, kids)
                &&& exists|mq: MultilevelFeedbackQueue|
                    #[trigger] queues_reparented(old(self).schd.mlfq, mq, xpid, daemon_pid, kids)
                        && pop_step(mq, final(self).schd.mlfq)
                        && final(self).current_task == (ProcessControlBlock {
                            task_status: TaskStatus::Running,
                            ..next_of(mq)
                        })
            }),
    {
        let ghost pre = *old(self);
        self.current_task.task_status = TaskStatus::Exited;
        self.current_task.exit_code = exit_code;
        let mut kids: Vec<u64> = Vec::new();
        core::mem::swap(&mut self.current_task.children, &mut kids);
        let xpid = self.current_task.pid;
        reparent_queue(&mut self.schd.mlfq.fcfs1_queue, xpid, daemon_pid, &kids);
        reparent_queue(&mut self.schd.mlfq.fcfs2_queue, xpid, daemon_pid, &kids);
        reparent_queue(&mut self.schd.mlfq.rr_queue, xpid, daemon_pid, &kids);
        reparent_vec(&mut self.zombies, xpid, daemon_pid, &kids);
        let ghost mid_tm = *self;
        proof {
            assert(queues_reparented(pre.schd.mlfq, mid_tm.schd.mlfq, xpid, daemon_pid, kids@));
            assert forall|p: u64| cnt(mid_tm.all_pcbs(), p) == cnt(pre.all_pcbs(), p) by {
                pre.lemma_cnt_all(p);
                mid_tm.lemma_cnt_all(p);
                lemma_cnt_single(pre.current_task, p);
                lemma_cnt_single(mid_tm.current_task, p);
                lemma_cnt_pointwise(pre.schd.mlfq.fcfs1_queue@, mid_tm.schd.mlfq.fcfs1_queue@, p);
                lemma_cnt_pointwise(pre.schd.mlfq.fcfs2_queue@, mid_tm.schd.mlfq.fcfs2_queue@, p);
                lemma_cnt_pointwise(pre.schd.mlfq.rr_queue@, mid_tm.schd.mlfq.rr_queue@, p);
                lemma_cnt_pointwise(pre.zombies@, mid_tm.zombies@, p);
            };
            assert forall|p: u64| cnt(mid_tm.all_pcbs(), p) <= 1 by {
                assert(cnt(mid_tm.all_pcbs(), p) == cnt(pre.all_pcbs(), p));
                assert(cnt(pre.all_pcbs(), p) <= 1);
            };
            assert(mid_tm.wf());
            assert(mid_tm.schd.mlfq.total_len() == pre.schd.mlfq.total_len());
        }
        let slice = self.switch_to_next_task();
        proof {
            assert(self.zombies@ == mid_tm.zombies@.push(mid_tm.current_task));
            assert forall|i: int| 0 <= i < pre.zombies@.len()
                implies reparented(pre.zombies@[i], #[trigger] self.zombies@[i],
                    xpid, daemon_pid, kids@) by {
                assert(self.zombies@[i] == mid_tm.zombies@[i]);
            };
        }
        slice
    }

    /// Reap one exited child: remove the first zombie with pid `pid`
    /// whose parent is the current process and hand back its pid and exit
    /// code; `None` when no such zombie exists.
    pub fn wait_pid(&mut self, pid: u64) -> (r: Option<(u64, i32)>)
        requires
            old(self).wf(),
        ensures
            final(self).wf(),
            final(self).current_task == old(self).current_task,
            final(self).schd == old(self).schd,
            match r {
                Some((p, code)) => p == pid
                    && exists|i: int| 0 <= i < old(self).zombies@.len()
                        && (#[trigger] old(self).zombies@[i]).pid == pid
                        && old(self).zombies@[i].parent == old(self).current_task.pid
                        && code == old(self).zombies@[i].exit_code
                        && final(self).zombies@ == old(self).zombies@.remove(i),
                None => final(self).zombies@ == old(self).zombies@
                    && forall|i: int| 0 <= i < old(self).zombies@.len()
                        ==> !((#[trigger] old(self).zombies@[i]).pid == pid
                            && old(self).zombies@[i].parent == old(self).current_task.pid),
            },
    {
        let ghost pre = *old(self);
        let mut i: usize = 0;
        while i < self.zombies.len()
            invariant
                *self == *old(self),
                pre == *old(self),
                pre.wf(),
                i <= self.zombies@.len(),
                forall|j: int| 0 <= j < i
                    ==> !((#[trigger] self.zombies@[j]).pid == pid
                        && self.zombies@[j].parent == self.current_task.pid),
            decreases self.zombies@.len() - i,
        {
            if self.zombies[i].pid == pid && self.zombies[i].parent == self.current_task.pid {
                let z = self.zombies.remove(i);
                proof {
                    assert(pre.zombies@[i as int].pid == pid);
                    assert forall|p: u64| cnt(self.all_pcbs(), p) <= 1 by {
                        pre.lemma_cnt_all(p);
                        self.lemma_cnt_all(p);
                        lemma_cnt_remove(pre.zombies@, i as int, p);
                        lemma_cnt_nonneg(self.zombies@, p);
                        assert(cnt(pre.all_pcbs(), p) <= 1);
                        lemma_cnt_nonneg(pre.zombies@.remove(i as int), p);
                    };
                    assert(self.wf());
                }
                return Some((z.pid, z.exit_code));
            }
            i = i + 1;
        }
        None
    }

    /// Split the count of all owned tasks into its five parts.
    pub proof fn lemma_cnt_all(self, p: u64)
        ensures
            cnt(self.all_pcbs(), p) == cnt(seq![self.current_task], p)
                + cnt(self.schd.mlfq.fcfs1_queue@, p)
                + cnt(self.schd.mlfq.fcfs2_queue@, p)
                + cnt(self.schd.mlfq.rr_queue@, p)
                + cnt(self.zombies@, p),
    {
        let c = seq![self.current_task];
        let f1 = self.schd.mlfq.fcfs1_queue@;
        let f2 = self.schd.mlfq.fcfs2_queue@;
        let rr = self.schd.mlfq.rr_queue@;
        let z = self.zombies@;
        assert(self.all_pcbs() =~= c + (f1 + f2 + rr) + z);
        lemma_cnt_concat(c + (f1 + f2 + rr), z, p);
        lemma_cnt_concat(c, f1 + f2 + rr, p);
        lemma_cnt_concat(f1 + f2, rr, p);
        assert(f1 + f2 + rr =~= (f1 + f2) + rr);
        lemma_cnt_concat(f1, f2, p);
    }

    /// Hand a brand-new task to the scheduler: it enters the first queue,
    /// at the back, Ready.
    pub fn add_new_task(&mut self, task: ProcessControlBlock)
        requires
            old(self).wf(),
            task.wf(),
            task.task_status == TaskStatus::Ready,
            forall|p: u64| cnt(old(self).all_pcbs(), p) + cnt(seq![task], p) <= 1
                || cnt(seq![task], p) == 0,
        ensures
            final(self).wf(),
            final(self).current_task == old(self).current_task,
            final(self).zombies@ == old(self).zombies@,
            final(self).schd.mlfq.fcfs1_queue@ == old(self).schd.mlfq.fcfs1_queue@.push(
                ProcessControlBlock { task_pos: crate::task::TaskPos::Fcfs1, ..task }),
            final(self).schd.mlfq.fcfs2_queue@ == old(self).schd.mlfq.fcfs2_queue@,
            final(self).schd.mlfq.rr_queue@ == old(self).schd.mlfq.rr_queue@,
    {
        let ghost pre = *old(self);
        self.schd.add_new_task(task);
        proof {
            let moved = ProcessControlBlock { task_pos: crate::task::TaskPos::Fcfs1, ..task };
            assert forall|p: u64| cnt(self.all_pcbs(), p) <= 1 by {
                pre.lemma_cnt_all(p);
                self.lemma_cnt_all(p);
                lemma_cnt_push(pre.schd.mlfq.fcfs1_queue@, moved, p);
                lemma_cnt_single(task, p);
                lemma_cnt_nonneg(pre.all_pcbs(), p);
            };
        }
    }

    /// Whether the running task keeps the hart through a switch: the
    /// discipline requeues the preempted task at the back of its demoted
    /// queue and then picks the front of the highest non-empty queue, so
    /// the same task runs on exactly when every queue above its new
    /// level, and its new queue itself, held nothing.
    pub open spec fn keeps_hart(self) -> bool {
        &&& self.current_task.task_status != TaskStatus::Exited
        &&& self.schd.mlfq.fcfs1_queue@.len() == 0
        &&& self.schd.mlfq.fcfs2_queue@.len() == 0
        &&& (self.current_task.task_pos == TaskPos::Fcfs1
            || self.schd.mlfq.rr_queue@.len() == 0)
    }

    /// Stop running the current task and hand the hart to the next one:
    /// the preempted task, unless it exited, is demoted exactly one level
    /// to the back of its new queue (an exited task joins the zombies),
    /// and the front of the highest non-empty queue takes over -- which
    /// is the demoted task itself when nothing outranked it.  Returns the
    /// time slice to arm for the task now running.
    #[verifier::rlimit(100)]
    #[verifier::spinoff_prover]
    pub fn switch_to_next_task(&mut self) -> (slice: u64)
        requires
            old(self).wf(),
            old(self).schd.mlfq.total_len() > 0
                || old(self).current_task.task_status != TaskStatus::Exited,
        ensures
            final(self).wf(),
            slice == time_slice_spec(final(self).current_task.task_pos),
            final(self).current_task.task_status == TaskStatus::Running,
            forall|p: u64| cnt(final(self).all_pcbs(), p) == cnt(old(self).all_pcbs(), p),
            if old(self).keeps_hart() {
                final(self).current_task == (ProcessControlBlock {
                    task_pos: demote(old(self).current_task.task_pos),
                    task_status: TaskStatus::Running,
                    ..old(self).current_task
                }) && final(self).schd.mlfq.fcfs1_queue@ == old(self).schd.mlfq.fcfs1_queue@
                    && final(self).schd.mlfq.fcfs2_queue@ == old(self).schd.mlfq.fcfs2_queue@
                    && final(self).schd.mlfq.rr_queue@ == old(self).schd.mlfq.rr_queue@
                    && final(self).zombies@ == old(self).zombies@
            } else {
                ({
                    let picked = next_of(old(self).schd.mlfq);
                    &&& final(self).current_task == (ProcessControlBlock {
                        task_status: TaskStatus::Running,
                        ..picked
                    })
                    &&& if old(self).current_task.task_status != TaskStatus::Exited {
                        ({
                            let moved = ProcessControlBlock {
                                task_status: TaskStatus::Ready,
                                ..old(self).current_task
                            };
                            &&& final(self).zombies@ == old(self).zombies@
                            &&& (exists|mid: MultilevelFeedbackQueue|
                                #[trigger] pop_step(old(self).schd.mlfq, mid)
                                    && requeue_step(mid, final(self).schd.mlfq, moved))
                        })
                    } else {
                        final(self).zombies@ == old(self).zombies@.push(
                            old(self).current_task)
                            && pop_step(old(self).schd.mlfq, final(self).schd.mlfq)
                    }
                })
            },
    {
        let ghost pre = *old(self);
        let status = self.current_task.task_status;
        let pos = self.current_task.task_pos;
        let keeps = status != TaskStatus::Exited
            && self.schd.mlfq.fcfs1_queue.len() == 0
            && self.schd.mlfq.fcfs2_queue.len() == 0
            && (pos == TaskPos::Fcfs1 || self.schd.mlfq.rr_queue.len() == 0);
        if keeps {
            {
                self.current_task.task_pos = demote_pos(pos);
                self.current_task.task_status = TaskStatus::Running;
                proof {
                    assert(self.all_pcbs() =~= pre.all_pcbs().update(0, self.current_task));
                    assert(pre.wf());
                    assert forall|p: u64| cnt(self.all_pcbs(), p) == cnt(pre.all_pcbs(), p) by {
                        pre.lemma_cnt_all(p);
                        self.lemma_cnt_all(p);
                        lemma_cnt_single(pre.current_task, p);
                        lemma_cnt_single(self.current_task, p);
                    };
                    assert forall|p: u64| cnt(self.all_pcbs(), p) <= 1 by {
                        assert(cnt(self.all_pcbs(), p) == cnt(pre.all_pcbs(), p));
                        assert(cnt(pre.all_pcbs(), p) <= 1);
                    };
                    assert(self.wf());
                }
                get_time_slice(self.current_task.task_pos)
            }
        } else {
            {
                let mut next = match self.schd.get_next() {
                    Some(n) => n,
                    None => {
                        proof {
                            assert(false);
                        }
                        return 0;
                    },
                };
                let ghost mid = self.schd.mlfq;
                next.task_status = TaskStatus::Running;
                core::mem::swap(&mut self.current_task, &mut next);
                // `next` now holds the task that was running
                if status != TaskStatus::Exited {
                    next.task_status = TaskStatus::Ready;
                    let ghost moved = next;
                    self.schd.requeue_current(next);
                    proof {
                        assert(pop_step(pre.schd.mlfq, mid));
                        assert(requeue_step(mid, self.schd.mlfq, moved));
                        let pushed = ProcessControlBlock { task_pos: demote(moved.task_pos), ..moved };
                        assert forall|p: u64|
                            cnt(self.all_pcbs(), p) == cnt(pre.all_pcbs(), p) by {
                            pre.lemma_cnt_all(p);
                            self.lemma_cnt_all(p);
                            lemma_cnt_single(pre.current_task, p);
                            lemma_cnt_single(self.current_task, p);
                            if pre.schd.mlfq.fcfs1_queue@.len() > 0 {
                                lemma_cnt_front(pre.schd.mlfq.fcfs1_queue@, p);
                            } else if pre.schd.mlfq.fcfs2_queue@.len() > 0 {
                                lemma_cnt_front(pre.schd.mlfq.fcfs2_queue@, p);
                            } else {
                                lemma_cnt_front(pre.schd.mlfq.rr_queue@, p);
                            }
                            match moved.task_pos {
                                crate::task::TaskPos::Fcfs1 =>
                                    lemma_cnt_push(mid.fcfs2_queue@, pushed, p),
                                crate::task::TaskPos::Fcfs2 =>
                                    lemma_cnt_push(mid.rr_queue@, pushed, p),
                                crate::task::TaskPos::Rr =>
                                    lemma_cnt_push(mid.rr_queue@, pushed, p),
                            }
                        };
                        assert forall|p: u64| cnt(self.all_pcbs(), p) <= 1 by {
                            assert(cnt(self.all_pcbs(), p) == cnt(pre.all_pcbs(), p));
                            assert(cnt(pre.all_pcbs(), p) <= 1);
                        };
                        assert(self.wf());
                    }
                } else {
                    self.zombies.push(next);
                    proof {
                        assert(pop_step(pre.schd.mlfq, self.schd.mlfq));
                        assert forall|p: u64|
                            cnt(self.all_pcbs(), p) == cnt(pre.all_pcbs(), p) by {
                            pre.lemma_cnt_all(p);
                            self.lemma_cnt_all(p);
                            lemma_cnt_single(pre.current_task, p);
                            lemma_cnt_single(self.current_task, p);
                            if pre.schd.mlfq.fcfs1_queue@.len() > 0 {
                                lemma_cnt_front(pre.schd.mlfq.fcfs1_queue@, p);
                            } else if pre.schd.mlfq.fcfs2_queue@.len() > 0 {
                                lemma_cnt_front(pre.schd.mlfq.fcfs2_queue@, p);
                            } else {
                                lemma_cnt_front(pre.schd.mlfq.rr_queue@, p);
                            }
                            lemma_cnt_push(pre.zombies@, pre.current_task, p);
                        };
                        assert forall|p: u64| cnt(self.all_pcbs(), p) <= 1 by {
                            assert(cnt(self.all_pcbs(), p) == cnt(pre.all_pcbs(), p));
                            assert(cnt(pre.all_pcbs(), p) <= 1);
                        };
                        assert(self.wf());
                    }
                }
                get_time_slice(self.current_task.task_pos)
            }
        }
    }

    /// The task that owns the hart.
    pub fn get_current_process(&self) -> (r: &ProcessControlBlock)
        ensures
            r == self.current_task,
    {
        &self.current_task
    }
}

/// Split the count of all owned tasks into its five parts.
pub proof fn lemma_cnt_all_parts(tm: TaskManager, p: u64)
    ensures
        cnt(tm.all_pcbs(), p) == cnt(seq![tm.current_task], p)
            + cnt(tm.schd.mlfq.fcfs1_queue@, p)
            + cnt(tm.schd.mlfq.fcfs2_queue@, p)
            + cnt(tm.schd.mlfq.rr_queue@, p)
            + cnt(tm.zombies@, p),
{
    tm.lemma_cnt_all(p);
}

/// The current task sits in no queue: its pid appears on no queued task.
pub proof fn lemma_current_not_queued(tm: TaskManager)
    requires
        tm.wf(),
    ensures
        forall|i: int| 0 <= i < tm.schd.mlfq.all_tasks().len()
            ==> (#[trigger] tm.schd.mlfq.all_tasks()[i]).pid != tm.current_task.pid,
{
    assert forall|i: int| 0 <= i < tm.schd.mlfq.all_tasks().len()
        implies (#[trigger] tm.schd.mlfq.all_tasks()[i]).pid != tm.current_task.pid by {
        if tm.schd.mlfq.all_tasks()[i].pid == tm.current_task.pid {
            assert(tm.all_pcbs()[0] == tm.current_task);
            assert(tm.all_pcbs()[1 + i] == tm.schd.mlfq.all_tasks()[i]);
            lemma_cnt_two(tm.all_pcbs(), tm.current_task.pid, 0, 1 + i);
        }
    };
}

/// Task accounting: the tasks a manager owns are the one current task,
/// the Ready tasks in the queues, and the Exited-but-unreaped zombies;
/// their numbers add up to the number of live PCBs.
pub proof fn lemma_task_accounting(tm: TaskManager)
    requires
        tm.wf(),
    ensures
        tm.all_pcbs().len() == 1 + tm.schd.mlfq.total_len() + tm.zombies@.len(),
        forall|i: int| 0 <= i < tm.schd.mlfq.all_tasks().len()
            ==> (#[trigger] tm.schd.mlfq.all_tasks()[i]).task_status == TaskStatus::Ready,
        forall|i: int| 0 <= i < tm.zombies@.len()
            ==> (#[trigger] tm.zombies@[i]).task_status == TaskStatus::Exited,
{
    assert forall|i: int| 0 <= i < tm.schd.mlfq.all_tasks().len()
        implies (#[trigger] tm.schd.mlfq.all_tasks()[i]).task_status == TaskStatus::Ready by {
        let f1 = tm.schd.mlfq.fcfs1_queue@;
        let f2 = tm.schd.mlfq.fcfs2_queue@;
        let rr = tm.schd.mlfq.rr_queue@;
        if i < f1.len() {
            assert(tm.schd.mlfq.all_tasks()[i] == f1[i]);
        } else if i < f1.len() + f2.len() {
            assert(tm.schd.mlfq.all_tasks()[i] == f2[i - f1.len()]);
        } else {
            assert(tm.schd.mlfq.all_tasks()[i] == rr[i - f1.len() - f2.len()]);
        }
    };
}

} // verus!
