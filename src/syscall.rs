//! System-call numbers and the state a task is in.
use vstd::prelude::*;

verus! {

/// The system calls the kernel serves.
#[derive(Debug, Clone, Copy, PartialEq, Eq, Structural)]
pub enum SYSCALL {
    /// Write a buffer to a file descriptor: number 64.
    Write,
    /// End the calling task: number 93.
    Exit,
    /// Give up the processor: number 124.
    Yield,
    /// Read the time: number 169.
    GetTime,
}

impl SYSCALL {
    /// The number that selects this call.
    pub open spec fn spec_id(self) -> usize {
        match self {
            SYSCALL::Write => 64,
            SYSCALL::Exit => 93,
            SYSCALL::Yield => 124,
            SYSCALL::GetTime => 169,
        }
    }

    /// The number that selects this call.
    pub fn id(&self) -> (r: usize)
        ensures
            r == self.spec_id(),
    {
        match self {
            SYSCALL::Write => 64,
            SYSCALL::Exit => 93,
            SYSCALL::Yield => 124,
            SYSCALL::GetTime => 169,
        }
    }

    /// The call selected by `id`, which must be one of the four numbers.
    pub fn try_from(id: usize) -> (r: SYSCALL)
        requires
            id == 64 || id == 93 || id == 124 || id == 169,
        ensures
            r.spec_id() == id,
    {
        if id == 64 {
            SYSCALL::Write
        } else if id == 93 {
            SYSCALL::Exit
        } else if id == 124 {
            SYSCALL::Yield
        } else {
            SYSCALL::GetTime
        }
    }
}

/// Where a task is in its life.
#[derive(Debug, Clone, Copy, PartialEq, Eq, Structural)]
pub enum TaskStatus {
    UnInit,
    Ready,
    Running,
    Exited,
}

/// What the scheduler keeps of a task: where its saved context is, and its
/// status.
#[derive(Debug)]
pub struct TaskControlBlock {
    pub task_ctx_ptr: usize,
    pub task_status: TaskStatus,
}

} // verus!
