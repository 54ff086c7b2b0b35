//! Kernel-internal cooperative tasks and their executor.
use vstd::prelude::*;

pub mod executor;

verus! {

/// Identifies a task.
#[derive(Clone, Copy, Debug, PartialEq, Eq, Structural)]
pub struct TaskId(pub u64);

/// What one poll of a task reports.
#[derive(Clone, Copy, Debug, PartialEq, Eq, Structural)]
pub enum Poll {
    /// The task ran to completion.
    Ready,
    /// The task waits until its waker is invoked.
    Pending,
}

/// A handle that puts the task `task_id` back on the ready queue when it is
/// handed to `Executor::wake`. Any number of handles may name one task.
#[derive(Clone, Copy, Debug, PartialEq, Eq, Structural)]
pub struct TaskWaker {
    pub task_id: TaskId,
}

impl TaskWaker {
    pub fn new(task_id: TaskId) -> (r: TaskWaker)
        ensures
            r.task_id == task_id,
    {
        TaskWaker { task_id }
    }
}

/// A suspended computation that the executor polls until it completes.
pub trait Task {
    /// Runs the task until it completes or has to wait; `waker` names the
    /// task, so that it can be put back on the ready queue.
    fn poll(&mut self, waker: &TaskWaker) -> Poll;
}

/// Hands out task ids in increasing order.
pub struct TaskIdGenerator {
    next: u64,
}

impl TaskIdGenerator {
    pub closed spec fn spec_next(&self) -> u64 {
        self.next
    }

    pub fn new() -> (r: TaskIdGenerator)
        ensures
            r.spec_next() == 0,
    {
        TaskIdGenerator { next: 0 }
    }

    /// A fresh id, larger than all earlier ones; `None` once ids run out.
    pub fn fresh(&mut self) -> (r: Option<TaskId>)
        ensures
            match r {
                Some(id) => id.0 == old(self).spec_next() && final(self).spec_next() == old(self).spec_next() + 1,
                None => old(self).spec_next() == u64::MAX && final(self).spec_next() == u64::MAX,
            },
    {
        if self.next == u64::MAX {
            return None;
        }
        let id = self.next;
        self.next = id + 1;
        Some(TaskId(id))
    }
}

} // verus!
