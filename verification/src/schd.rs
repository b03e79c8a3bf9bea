//! The multilevel feedback queue scheduler.
//!
//! Three FIFO queues in strict priority order.  New tasks enter the
//! first; a task that consumes its slice is demoted one level and queued
//! at the back; the lowest queue is round-robin.  Each level has its own
//! time slice.

use vstd::prelude::*;
use std::collections::VecDeque;
use crate::config::{TASK_QUEUE_FCFS1_SLICE, TASK_QUEUE_FCFS2_SLICE, TASK_QUEUE_RR_SLICE};
use crate::task::{ProcessControlBlock, TaskPos, TaskStatus};

verus! {

/// Where a task at `pos` goes when it has used up its slice.
pub open spec fn demote(pos: TaskPos) -> TaskPos {
    match pos {
        TaskPos::Fcfs1 => TaskPos::Fcfs2,
        TaskPos::Fcfs2 => TaskPos::Rr,
        TaskPos::Rr => TaskPos::Rr,
    }
}

/// Compute where a task goes when it has used up its slice.
pub fn demote_pos(pos: TaskPos) -> (r: TaskPos)
    ensures
        r == demote(pos),
{
    match pos {
        TaskPos::Fcfs1 => TaskPos::Fcfs2,
        TaskPos::Fcfs2 => TaskPos::Rr,
        TaskPos::Rr => TaskPos::Rr,
    }
}

/// Two demotions from any level land in the round-robin queue: a
/// CPU-bound task reaches the bottom after at most two slice expiries.
pub proof fn lemma_two_demotions_reach_rr(pos: TaskPos)
    ensures
        demote(demote(pos)) == TaskPos::Rr,
{
}

/// The three priority queues.
pub struct MultilevelFeedbackQueue {
    pub fcfs1_queue: VecDeque<ProcessControlBlock>,
    pub fcfs2_queue: VecDeque<ProcessControlBlock>,
    pub rr_queue: VecDeque<ProcessControlBlock>,
}

impl MultilevelFeedbackQueue {
    /// All queued tasks are well-formed, Ready, and sit in the queue
    /// their recorded position names.
    pub open spec fn wf(self) -> bool {
        &&& forall|i: int| 0 <= i < self.fcfs1_queue@.len()
            ==> (#[trigger] self.fcfs1_queue@[i]).wf()
                && self.fcfs1_queue@[i].task_pos == TaskPos::Fcfs1
                && self.fcfs1_queue@[i].task_status == TaskStatus::Ready
        &&& forall|i: int| 0 <= i < self.fcfs2_queue@.len()
            ==> (#[trigger] self.fcfs2_queue@[i]).wf()
                && self.fcfs2_queue@[i].task_pos == TaskPos::Fcfs2
                && self.fcfs2_queue@[i].task_status == TaskStatus::Ready
        &&& forall|i: int| 0 <= i < self.rr_queue@.len()
            ==> (#[trigger] self.rr_queue@[i]).wf()
                && self.rr_queue@[i].task_pos == TaskPos::Rr
                && self.rr_queue@[i].task_status == TaskStatus::Ready
    }

    /// Every task in any of the three queues, first queue first.
    pub open spec fn all_tasks(self) -> Seq<ProcessControlBlock> {
        self.fcfs1_queue@ + self.fcfs2_queue@ + self.rr_queue@
    }

    /// How many tasks sit in the queues.
    pub open spec fn total_len(self) -> int {
        self.fcfs1_queue@.len() as int + self.fcfs2_queue@.len() as int
            + self.rr_queue@.len() as int
    }

    pub fn new() -> (r: Self)
        ensures
            r.wf(),
            r.fcfs1_queue@ =~= Seq::<ProcessControlBlock>::empty(),
            r.fcfs2_queue@ =~= Seq::<ProcessControlBlock>::empty(),
            r.rr_queue@ =~= Seq::<ProcessControlBlock>::empty(),
    {
        MultilevelFeedbackQueue {
            fcfs1_queue: VecDeque::new(),
            fcfs2_queue: VecDeque::new(),
            rr_queue: VecDeque::new(),
        }
    }

    /// Requeue a preempted task: demote it exactly one level and place it
    /// at the back of its new queue.
    pub fn requeue(&mut self, task: ProcessControlBlock) -> (r: bool)
        requires
            old(self).wf(),
            task.wf(),
            task.task_status == TaskStatus::Ready,
        ensures
            final(self).wf(),
            r == true,
            ({
                let moved = ProcessControlBlock { task_pos: demote(task.task_pos), ..task };
                match task.task_pos {
                    TaskPos::Fcfs1 => final(self).fcfs2_queue@
                            == old(self).fcfs2_queue@.push(moved)
                        && final(self).fcfs1_queue@ == old(self).fcfs1_queue@
                        && final(self).rr_queue@ == old(self).rr_queue@,
                    TaskPos::Fcfs2 => final(self).rr_queue@ == old(self).rr_queue@.push(moved)
                        && final(self).fcfs1_queue@ == old(self).fcfs1_queue@
                        && final(self).fcfs2_queue@ == old(self).fcfs2_queue@,
                    TaskPos::Rr => final(self).rr_queue@ == old(self).rr_queue@.push(moved)
                        && final(self).fcfs1_queue@ == old(self).fcfs1_queue@
                        && final(self).fcfs2_queue@ == old(self).fcfs2_queue@,
                }
            }),
    {
        let mut task = task;
        match task.task_pos {
            TaskPos::Fcfs1 => {
                task.task_pos = TaskPos::Fcfs2;
                self.fcfs2_queue.push_back(task);
                true
            },
            TaskPos::Fcfs2 => {
                task.task_pos = TaskPos::Rr;
                self.rr_queue.push_back(task);
                true
            },
            TaskPos::Rr => {
                task.task_pos = TaskPos::Rr;
                self.rr_queue.push_back(task);
                true
            },
        }
    }

    /// Enqueue a new task at the highest level.
    pub fn enqueue(&mut self, task: ProcessControlBlock)
        requires
            old(self).wf(),
            task.wf(),
            task.task_status == TaskStatus::Ready,
        ensures
            final(self).wf(),
            final(self).fcfs1_queue@ == old(self).fcfs1_queue@.push(
                ProcessControlBlock { task_pos: TaskPos::Fcfs1, ..task }),
            final(self).fcfs2_queue@ == old(self).fcfs2_queue@,
            final(self).rr_queue@ == old(self).rr_queue@,
    {
        let mut task = task;
        task.task_pos = TaskPos::Fcfs1;
        self.fcfs1_queue.push_back(task)
    }

    /// Take the next task: the front of the first non-empty queue in
    /// priority order; `None` exactly when all queues are empty.
    pub fn get_task(&mut self) -> (r: Option<ProcessControlBlock>)
        requires
            old(self).wf(),
        ensures
            final(self).wf(),
            r is None <==> old(self).total_len() == 0,
            match r {
                Some(task) => {
                    &&& task.wf()
                    &&& final(self).total_len() == old(self).total_len() - 1
                    &&& if old(self).fcfs1_queue@.len() > 0 {
                        task == old(self).fcfs1_queue@[0]
                            && final(self).fcfs1_queue@ == old(self).fcfs1_queue@.subrange(
                                1, old(self).fcfs1_queue@.len() as int)
                            && final(self).fcfs2_queue@ == old(self).fcfs2_queue@
                            && final(self).rr_queue@ == old(self).rr_queue@
                    } else if old(self).fcfs2_queue@.len() > 0 {
                        task == old(self).fcfs2_queue@[0]
                            && final(self).fcfs2_queue@ == old(self).fcfs2_queue@.subrange(
                                1, old(self).fcfs2_queue@.len() as int)
                            && final(self).fcfs1_queue@ == old(self).fcfs1_queue@
                            && final(self).rr_queue@ == old(self).rr_queue@
                    } else {
                        task == old(self).rr_queue@[0]
                            && final(self).rr_queue@ == old(self).rr_queue@.subrange(
                                1, old(self).rr_queue@.len() as int)
                            && final(self).fcfs1_queue@ == old(self).fcfs1_queue@
                            && final(self).fcfs2_queue@ == old(self).fcfs2_queue@
                    }
                },
                None => final(self).total_len() == 0
                    && final(self).fcfs1_queue@ == old(self).fcfs1_queue@
                    && final(self).fcfs2_queue@ == old(self).fcfs2_queue@
                    && final(self).rr_queue@ == old(self).rr_queue@,
            },
    {
        let task = self.fcfs1_queue.pop_front();
        if task.is_some() {
            return task;
        }
        let task = self.fcfs2_queue.pop_front();
        if task.is_some() {
            return task;
        }
        self.rr_queue.pop_front()
    }
}

/// The scheduling discipline the task manager drives.
pub struct SchdMaster {
    pub mlfq: MultilevelFeedbackQueue,
}

impl SchdMaster {
    pub open spec fn wf(self) -> bool {
        self.mlfq.wf()
    }

    pub fn new() -> (r: Self)
        ensures
            r.wf(),
            r.mlfq.total_len() == 0,
    {
        SchdMaster { mlfq: MultilevelFeedbackQueue::new() }
    }

    /// Requeue the task that was just running, one level lower.
    pub fn requeue_current(&mut self, current_task_cb: ProcessControlBlock)
        requires
            old(self).wf(),
            current_task_cb.wf(),
            current_task_cb.task_status == TaskStatus::Ready,
        ensures
            final(self).wf(),
            final(self).mlfq.total_len() == old(self).mlfq.total_len() + 1,
            requeue_step(old(self).mlfq, final(self).mlfq, current_task_cb),
    {
        self.mlfq.requeue(current_task_cb);
    }

    /// The next task to run, if any queue is non-empty.
    pub fn get_next(&mut self) -> (r: Option<ProcessControlBlock>)
        requires
            old(self).wf(),
        ensures
            final(self).wf(),
            r is None <==> old(self).mlfq.total_len() == 0,
            r is None ==> final(self).mlfq.fcfs1_queue@ == old(self).mlfq.fcfs1_queue@
                && final(self).mlfq.fcfs2_queue@ == old(self).mlfq.fcfs2_queue@
                && final(self).mlfq.rr_queue@ == old(self).mlfq.rr_queue@,
            r is Some ==> r.unwrap().wf()
                && r.unwrap() == next_of(old(self).mlfq)
                && pop_step(old(self).mlfq, final(self).mlfq)
                && final(self).mlfq.total_len() == old(self).mlfq.total_len() - 1,
    {
        self.mlfq.get_task()
    }

    /// Hand a brand-new task to the scheduler: it starts at the first level.
    pub fn add_new_task(&mut self, tcb: ProcessControlBlock)
        requires
            old(self).wf(),
            tcb.wf(),
            tcb.task_status == TaskStatus::Ready,
        ensures
            final(self).wf(),
            final(self).mlfq.fcfs1_queue@ == old(self).mlfq.fcfs1_queue@.push(
                ProcessControlBlock { task_pos: TaskPos::Fcfs1, ..tcb }),
            final(self).mlfq.fcfs2_queue@ == old(self).mlfq.fcfs2_queue@,
            final(self).mlfq.rr_queue@ == old(self).mlfq.rr_queue@,
    {
        self.mlfq.enqueue(tcb);
    }
}


/// The task the scheduler hands out next: the front of the first
/// non-empty queue in priority order.
pub open spec fn next_of(m: MultilevelFeedbackQueue) -> ProcessControlBlock {
    if m.fcfs1_queue@.len() > 0 {
        m.fcfs1_queue@[0]
    } else if m.fcfs2_queue@.len() > 0 {
        m.fcfs2_queue@[0]
    } else {
        m.rr_queue@[0]
    }
}

/// How one `get_task` that returned `next_of(pre)` changes the queues.
pub open spec fn pop_step(pre: MultilevelFeedbackQueue, post: MultilevelFeedbackQueue) -> bool {
    if pre.fcfs1_queue@.len() > 0 {
        post.fcfs1_queue@ == pre.fcfs1_queue@.subrange(1, pre.fcfs1_queue@.len() as int)
            && post.fcfs2_queue@ == pre.fcfs2_queue@
            && post.rr_queue@ == pre.rr_queue@
    } else if pre.fcfs2_queue@.len() > 0 {
        post.fcfs2_queue@ == pre.fcfs2_queue@.subrange(1, pre.fcfs2_queue@.len() as int)
            && post.fcfs1_queue@ == pre.fcfs1_queue@
            && post.rr_queue@ == pre.rr_queue@
    } else {
        post.rr_queue@ == pre.rr_queue@.subrange(1, pre.rr_queue@.len() as int)
            && post.fcfs1_queue@ == pre.fcfs1_queue@
            && post.fcfs2_queue@ == pre.fcfs2_queue@
    }
}

/// How one `requeue` of `task` changes the queues: the task, demoted one
/// level, lands at the back of its new queue.
pub open spec fn requeue_step(
    pre: MultilevelFeedbackQueue,
    post: MultilevelFeedbackQueue,
    task: ProcessControlBlock,
) -> bool {
    let moved = ProcessControlBlock { task_pos: demote(task.task_pos), ..task };
    match task.task_pos {
        TaskPos::Fcfs1 => post.fcfs2_queue@ == pre.fcfs2_queue@.push(moved)
            && post.fcfs1_queue@ == pre.fcfs1_queue@
            && post.rr_queue@ == pre.rr_queue@,
        TaskPos::Fcfs2 => post.rr_queue@ == pre.rr_queue@.push(moved)
            && post.fcfs1_queue@ == pre.fcfs1_queue@
            && post.fcfs2_queue@ == pre.fcfs2_queue@,
        TaskPos::Rr => post.rr_queue@ == pre.rr_queue@.push(moved)
            && post.fcfs1_queue@ == pre.fcfs1_queue@
            && post.fcfs2_queue@ == pre.fcfs2_queue@,
    }
}

/// The timer quantum of each queue level, in timer ticks.
pub fn get_time_slice(pos: TaskPos) -> (r: u64)
    ensures
        r == time_slice_spec(pos),
{
    match pos {
        TaskPos::Fcfs1 => TASK_QUEUE_FCFS1_SLICE,
        TaskPos::Fcfs2 => TASK_QUEUE_FCFS2_SLICE,
        TaskPos::Rr => TASK_QUEUE_RR_SLICE,
    }
}

/// The quantum of each level: 5 ms, 10 ms, 20 ms of timer ticks.
pub open spec fn time_slice_spec(pos: TaskPos) -> u64 {
    match pos {
        TaskPos::Fcfs1 => TASK_QUEUE_FCFS1_SLICE,
        TaskPos::Fcfs2 => TASK_QUEUE_FCFS2_SLICE,
        TaskPos::Rr => TASK_QUEUE_RR_SLICE,
    }
}

/// The quantum a brand-new task is first armed with.
pub fn get_default_time_slice() -> (r: u64)
    ensures
        r == TASK_QUEUE_FCFS1_SLICE,
{
    TASK_QUEUE_FCFS1_SLICE
}

} // verus!
