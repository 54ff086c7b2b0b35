//! What the kernel decides when a trap arrives: the software interrupt of
//! system calls and the timer tick. Acknowledging the interrupt controller
//! and carrying the decisions out is left to the handlers.
use vstd::prelude::*;

use crate::process::PId;

verus! {

/// Vector of the system call trap.
pub const SYSCALL_VECTOR: u8 = 0x80;

/// Vector of the first interrupt controller's first line.
pub const PIC_1_OFFSET: u8 = 32;

/// Vector of the second interrupt controller's first line.
pub const PIC_2_OFFSET: u8 = 40;

/// The lines of the interrupt controllers that the kernel handles.
#[derive(Clone, Copy, Debug, PartialEq, Eq, Structural)]
pub enum InterruptIndex {
    Timer,
    Keyboard,
}

impl InterruptIndex {
    /// The vector the line raises.
    pub fn as_u8(self) -> (r: u8)
        ensures
            r == match self {
                InterruptIndex::Timer => PIC_1_OFFSET,
                InterruptIndex::Keyboard => (PIC_1_OFFSET + 1) as u8,
            },
    {
        match self {
            InterruptIndex::Timer => PIC_1_OFFSET,
            InterruptIndex::Keyboard => PIC_1_OFFSET + 1,
        }
    }

    /// The vector the line raises, as an index of the vector table.
    pub fn as_usize(self) -> (r: usize)
        ensures
            r == match self {
                InterruptIndex::Timer => PIC_1_OFFSET as usize,
                InterruptIndex::Keyboard => (PIC_1_OFFSET + 1) as usize,
            },
    {
        self.as_u8() as usize
    }
}

/// A decoded system call: the operation code comes in register A, its one
/// argument in register B.
#[derive(Clone, Copy, Debug, PartialEq, Eq, Structural)]
pub enum Syscall {
    /// Fill the active framebuffer with this byte.
    FillFramebuffer(u8),
    /// Open a data stream of this type for the current process.
    OpenStream(u64),
    /// An unknown operation: ignored.
    Ignored,
}

/// Decodes a system call from its operation code and argument. Operation 0
/// fills the framebuffer with the low byte of the argument, operation 1
/// opens a stream of the type the argument names, any other is ignored.
pub fn decode_syscall(code: u64, arg: u64) -> (r: Syscall)
    ensures
        code == 0 ==> r == Syscall::FillFramebuffer((arg % 256) as u8),
        code == 1 ==> r == Syscall::OpenStream(arg),
        code > 1 ==> r == Syscall::Ignored,
{
    if code == 0 {
        Syscall::FillFramebuffer((arg % 256) as u8)
    } else if code == 1 {
        Syscall::OpenStream(arg)
    } else {
        Syscall::Ignored
    }
}

/// What a timer tick asks for.
#[derive(Clone, Copy, Debug, PartialEq, Eq, Structural)]
pub struct TickActions {
    /// Give the task executor a pass over its ready tasks.
    pub run_tasks: bool,
    /// Enter this process, the first one, since none runs yet.
    pub start: Option<PId>,
}

/// The decisions of a timer tick: the executor runs once the heap is ready,
/// and the first process is started when no process runs and one exists.
pub fn on_timer_tick(heap_ready: bool, current: Option<PId>, process_count: usize) -> (r:
    TickActions)
    ensures
        r.run_tasks == heap_ready,
        r.start == if current is None && process_count > 0 {
            Some(PId(0))
        } else {
            None::<PId>
        },
{
    let start = if current.is_none() && process_count > 0 {
        Some(PId::new(0))
    } else {
        None
    };
    TickActions { run_tasks: heap_ready, start }
}

} // verus!
