//! Memory and execution management for a single-core x86-64 kernel: a
//! two-tier heap allocator, a physical frame allocator, process records and
//! their scheduler, and a cooperative task executor.
//!
//! Everything here is bookkeeping over plain values. Touching the hardware
//! (page tables, ports, privilege transitions, halting) is left to the
//! caller, which acts on what these functions decide.
use vstd::prelude::*;

pub mod allocator;
pub mod apps;
pub mod cmos;
pub mod framework;
pub mod interrupt;
pub mod memory;
pub mod process;
pub mod task;
pub mod vga;
pub mod vm;

verus! {

/// The status a test run reports through the debug exit port.
#[derive(Clone, Copy, Debug, PartialEq, Eq, Structural)]
pub enum QemuExitCode {
    Success,
    Failure,
}

impl QemuExitCode {
    /// The value written to the exit port.
    pub fn code(self) -> (r: u32)
        ensures
            r == match self {
                QemuExitCode::Success => 0x10u32,
                QemuExitCode::Failure => 0x11u32,
            },
    {
        match self {
            QemuExitCode::Success => 0x10,
            QemuExitCode::Failure => 0x11,
        }
    }
}

/// The debug I/O port whose writes end the emulated machine.
pub const EXIT_PORT: u16 = 0xf4;

} // verus!
