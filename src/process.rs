//! Processes: isolated user-mode contexts, each with its own stack and code
//! page, and the table that owns them once they are spawned.
//!
//! Entering a process is a hardware privilege transition that the caller
//! performs from the `UserEntry` these functions hand back.
use vstd::prelude::*;

use crate::allocator::PAGE_SIZE;
use crate::memory::{usable_frames, BootInfoFrameAllocator, Frame, VIRT_ADDR_LIMIT};

pub mod scheduler;

verus! {

/// Virtual address of the stack page of the first process.
pub const FIRST_STACK_ADDR: u64 = 0x60_0000;

/// Virtual address of the code page of the first process.
pub const FIRST_CODE_ADDR: u64 = 0x40_0000;

/// Virtual address of the stack page in a private address space.
pub const USER_STACK_ADDR: u64 = 0x1000_0000;

/// Virtual address of the code page in a private address space.
pub const USER_CODE_ADDR: u64 = 0x2000_0000;

/// Virtual address of the kernel stack page in a private address space.
pub const KERNEL_STACK_ADDR: u64 = 0x3000_0000;

/// Identifies a spawned process by its place in the process table.
#[derive(Clone, Copy, Debug, PartialEq, Eq, Structural)]
pub struct PId(pub usize);

impl PId {
    pub fn new(id: usize) -> (r: PId)
        ensures
            r.0 == id,
    {
        PId(id)
    }
}

/// Where a process stands.
#[derive(Clone, Copy, Debug, PartialEq, Eq, Structural)]
pub enum Status {
    Ready,
    Started,
    Done,
}

/// The general-purpose registers saved for a process.
#[derive(Clone, Copy, Debug, PartialEq, Eq, Structural)]
pub struct State {
    pub rax: u64,
    pub rbx: u64,
    pub rcx: u64,
    pub rdx: u64,
    pub rsi: u64,
    pub rdi: u64,
    pub rsp: u64,
    pub rbp: u64,
}

impl State {
    pub open spec fn is_zero(&self) -> bool {
        self.rax == 0 && self.rbx == 0 && self.rcx == 0 && self.rdx == 0 && self.rsi == 0
            && self.rdi == 0 && self.rsp == 0 && self.rbp == 0
    }

    /// All registers cleared.
    pub fn zeroed() -> (r: State)
        ensures
            r.is_zero(),
    {
        State { rax: 0, rbx: 0, rcx: 0, rdx: 0, rsi: 0, rdi: 0, rsp: 0, rbp: 0 }
    }
}

/// What a privilege transition into a process needs: where its code starts,
/// where its stack is, and, for a process with a private address space, the
/// frame of its top-level page table.
#[derive(Clone, Copy, Debug, PartialEq, Eq, Structural)]
pub struct UserEntry {
    pub instruction_pointer: u64,
    pub stack_pointer: u64,
    pub page_table_root: Option<u64>,
}

/// A process.
#[derive(Clone, Copy, Debug, PartialEq, Eq, Structural)]
pub struct Process {
    pub stack_addr: u64,
    pub code_addr: u64,
    pub page_table_root: Option<u64>,
    pub state: State,
    pub status: Status,
}

impl Process {
    /// The transition that enters this process.
    pub open spec fn spec_entry(&self) -> UserEntry {
        UserEntry {
            instruction_pointer: self.code_addr,
            stack_pointer: self.stack_addr,
            page_table_root: self.page_table_root,
        }
    }

    /// The transition that enters this process.
    pub fn entry(&self) -> (r: UserEntry)
        ensures
            r == self.spec_entry(),
    {
        UserEntry {
            instruction_pointer: self.code_addr,
            stack_pointer: self.stack_addr,
            page_table_root: self.page_table_root,
        }
    }

    /// Builds a process: its stack and code pages take the next addresses of
    /// `counters`, each backed by the next usable frame. `None` when the
    /// frames or the addresses run out; a frame taken before that is lost.
    /// The caller maps both pages present, writable and user-accessible,
    /// and copies the code into the code page.
    pub fn create(
        counters: &mut AddressCounters,
        frame_alloc: &mut BootInfoFrameAllocator,
    ) -> (r: Option<(Process, ProcessPages)>)
        requires
            old(frame_alloc).wf(),
        ensures
            final(frame_alloc).wf(),
            final(frame_alloc).map() == old(frame_alloc).map(),
            ({
                let frames = usable_frames(old(frame_alloc).map());
                let n = old(frame_alloc).handed_out();
                let addrs_ok = old(counters).stack + PAGE_SIZE <= VIRT_ADDR_LIMIT && old(counters).code + PAGE_SIZE <= VIRT_ADDR_LIMIT;
                match r {
                    Some((p, pages)) => {
                        &&& addrs_ok
                        &&& n + 2 <= frames.len()
                        &&& final(frame_alloc).handed_out() == n + 2
                        &&& pages == (ProcessPages {
                            stack_page: old(counters).stack,
                            stack_frame: Frame { start_address: frames[n as int] },
                            code_page: old(counters).code,
                            code_frame: Frame { start_address: frames[n + 1int] },
                        })
                        &&& p.stack_addr == old(counters).stack
                        &&& p.code_addr == old(counters).code
                        &&& p.page_table_root is None
                        &&& p.state.is_zero()
                        &&& p.status == Status::Ready
                        &&& final(counters).stack == old(counters).stack + PAGE_SIZE
                        &&& final(counters).code == old(counters).code + PAGE_SIZE
                    },
                    None => {
                        &&& !addrs_ok || n + 2 > frames.len()
                        &&& *final(counters) == *old(counters)
                        &&& final(frame_alloc).handed_out() == if addrs_ok {
                            frames.len()
                        } else {
                            n
                        }
                    },
                }
            }),
    {
        if counters.stack > VIRT_ADDR_LIMIT - PAGE_SIZE || counters.code > VIRT_ADDR_LIMIT
            - PAGE_SIZE {
            return None;
        }
        let stack_frame = match frame_alloc.allocate_frame() {
            Some(f) => f,
            None => return None,
        };
        let code_frame = match frame_alloc.allocate_frame() {
            Some(f) => f,
            None => return None,
        };
        let stack = counters.stack;
        let code = counters.code;
        counters.stack = stack + PAGE_SIZE;
        counters.code = code + PAGE_SIZE;
        let process = Process {
            stack_addr: stack,
            code_addr: code,
            page_table_root: None,
            state: State::zeroed(),
            status: Status::Ready,
        };
        let pages = ProcessPages { stack_page: stack, stack_frame, code_page: code, code_frame };
        Some((process, pages))
    }
}

impl Process {
    /// Builds a process with an address space of its own: one frame for
    /// its top-level page table, then one each for its stack, its code and
    /// its kernel stack, which sit at the fixed addresses `USER_STACK_ADDR`,
    /// `USER_CODE_ADDR` and `KERNEL_STACK_ADDR`. `None` when the frames run
    /// out; frames taken before that are lost. The caller fills the table:
    /// a copy of the kernel's mappings, then the three pages.
    pub fn create_isolated(frame_alloc: &mut BootInfoFrameAllocator) -> (r: Option<
        (Process, IsolatedFrames),
    >)
        requires
            old(frame_alloc).wf(),
        ensures
            final(frame_alloc).wf(),
            final(frame_alloc).map() == old(frame_alloc).map(),
            ({
                let frames = usable_frames(old(frame_alloc).map());
                let n = old(frame_alloc).handed_out();
                match r {
                    Some((p, f)) => {
                        &&& n + 4 <= frames.len()
                        &&& final(frame_alloc).handed_out() == n + 4
                        &&& f == (IsolatedFrames {
                            page_table: Frame { start_address: frames[n as int] },
                            stack: Frame { start_address: frames[n + 1int] },
                            code: Frame { start_address: frames[n + 2int] },
                            kernel_stack: Frame { start_address: frames[n + 3int] },
                        })
                        &&& p.stack_addr == USER_STACK_ADDR
                        &&& p.code_addr == USER_CODE_ADDR
                        &&& p.page_table_root == Some(frames[n as int])
                        &&& p.state.is_zero()
                        &&& p.status == Status::Ready
                    },
                    None => {
                        &&& n + 4 > frames.len()
                        &&& final(frame_alloc).handed_out() == frames.len()
                    },
                }
            }),
    {
        let page_table = match frame_alloc.allocate_frame() {
            Some(f) => f,
            None => return None,
        };
        let stack = match frame_alloc.allocate_frame() {
            Some(f) => f,
            None => return None,
        };
        let code = match frame_alloc.allocate_frame() {
            Some(f) => f,
            None => return None,
        };
        let kernel_stack = match frame_alloc.allocate_frame() {
            Some(f) => f,
            None => return None,
        };
        let process = Process {
            stack_addr: USER_STACK_ADDR,
            code_addr: USER_CODE_ADDR,
            page_table_root: Some(page_table.start_address),
            state: State::zeroed(),
            status: Status::Ready,
        };
        Some((process, IsolatedFrames { page_table, stack, code, kernel_stack }))
    }
}

/// The frames of a process with an address space of its own.
#[derive(Clone, Copy, Debug, PartialEq, Eq, Structural)]
pub struct IsolatedFrames {
    pub page_table: Frame,
    pub stack: Frame,
    pub code: Frame,
    pub kernel_stack: Frame,
}

/// The pages of a new process and the frames that back them.
#[derive(Clone, Copy, Debug, PartialEq, Eq, Structural)]
pub struct ProcessPages {
    pub stack_page: u64,
    pub stack_frame: Frame,
    pub code_page: u64,
    pub code_frame: Frame,
}

/// The next free stack and code addresses for new processes; each creation
/// moves both on by one page, so that processes never share a page.
#[derive(Clone, Copy, Debug, PartialEq, Eq, Structural)]
pub struct AddressCounters {
    pub stack: u64,
    pub code: u64,
}

impl AddressCounters {
    /// Counters at the first process addresses.
    pub fn new() -> (r: AddressCounters)
        ensures
            r.stack == FIRST_STACK_ADDR,
            r.code == FIRST_CODE_ADDR,
    {
        AddressCounters { stack: FIRST_STACK_ADDR, code: FIRST_CODE_ADDR }
    }
}

/// The spawned processes, by id, and the one that runs, if any.
pub struct ProcessTable {
    processes: Vec<Process>,
    current: Option<PId>,
}

impl ProcessTable {
    pub closed spec fn spec_processes(&self) -> Seq<Process> {
        self.processes@
    }

    pub closed spec fn spec_current(&self) -> Option<PId> {
        self.current
    }

    /// A table with no process.
    pub fn new() -> (r: ProcessTable)
        ensures
            r.spec_processes() == Seq::<Process>::empty(),
            r.spec_current() is None,
    {
        ProcessTable { processes: Vec::new(), current: None }
    }

    /// The number of spawned processes.
    pub fn count(&self) -> (r: usize)
        ensures
            r == self.spec_processes().len(),
    {
        self.processes.len()
    }
}

/// The process that runs, if any.
pub fn current(table: &ProcessTable) -> (r: Option<PId>)
    ensures
        r == table.spec_current(),
{
    table.current
}

/// Adds `proc` to the table; its id is its place there.
pub fn spawn(table: &mut ProcessTable, proc: Process) -> (r: PId)
    ensures
        r == PId(old(table).spec_processes().len() as usize),
        final(table).spec_processes() == old(table).spec_processes().push(proc),
        final(table).spec_current() == old(table).spec_current(),
{
    let id = table.processes.len();
    table.processes.push(proc);
    PId(id)
}

/// Makes `pid` the running process and returns the transition that enters
/// it; `None`, with nothing changed, for an id that names no process.
pub fn switch_to(table: &mut ProcessTable, pid: PId) -> (r: Option<UserEntry>)
    ensures
        final(table).spec_processes() == old(table).spec_processes(),
        match r {
            Some(e) => {
                &&& pid.0 < old(table).spec_processes().len()
                &&& e == old(table).spec_processes()[pid.0 as int].spec_entry()
                &&& final(table).spec_current() == Some(pid)
            },
            None => {
                &&& pid.0 >= old(table).spec_processes().len()
                &&& final(table).spec_current() == old(table).spec_current()
            },
        },
{
    if pid.0 >= table.processes.len() {
        return None;
    }
    table.current = Some(pid);
    Some(table.processes[pid.0].entry())
}

/// The process with id `pid`, if there is one.
pub fn get_mut(table: &mut ProcessTable, pid: PId) -> (r: Option<&mut Process>)
    ensures
        match r {
            Some(p) => {
                &&& pid.0 < old(table).spec_processes().len()
                &&& *p == old(table).spec_processes()[pid.0 as int]
                &&& final(table).spec_processes() == old(table).spec_processes().update(
                    pid.0 as int,
                    *final(p),
                )
                &&& final(table).spec_current() == old(table).spec_current()
            },
            None => {
                &&& pid.0 >= old(table).spec_processes().len()
                &&& *final(table) == *old(table)
            },
        },
{
    if pid.0 >= table.processes.len() {
        return None;
    }
    Some(&mut table.processes[pid.0])
}

} // verus!
