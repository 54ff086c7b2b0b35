use kcore::interrupt::{decode_syscall, on_timer_tick, InterruptIndex, Syscall, TickActions};
use kcore::memory::{BootInfoFrameAllocator, Frame, MemoryRegion, MemoryRegionKind};
use kcore::process::scheduler::Scheduler;
use kcore::process::{
    current, get_mut, spawn, switch_to, AddressCounters, PId, Process, ProcessTable, State,
    Status, UserEntry, USER_CODE_ADDR, USER_STACK_ADDR,
};

fn process(stack: u64, code: u64) -> Process {
    Process {
        stack_addr: stack,
        code_addr: code,
        page_table_root: None,
        state: State::zeroed(),
        status: Status::Ready,
    }
}

#[test]
fn scheduler_selects_single_process() {
    let mut s = Scheduler::new();
    assert_eq!(s.current(), None);
    s.spawn(process(0x1000_0000, 0x2000_0000));
    let entry = s.next();
    assert_eq!(
        entry,
        Some(UserEntry {
            instruction_pointer: 0x2000_0000,
            stack_pointer: 0x1000_0000,
            page_table_root: None,
        })
    );
    assert_eq!(s.current(), Some(PId(0)));
}

#[test]
fn scheduler_without_processes_does_nothing() {
    let mut s = Scheduler::new();
    assert_eq!(s.next(), None);
    assert_eq!(s.current(), None);
}

#[test]
fn scheduler_takes_first_ready() {
    let mut s = Scheduler::new();
    s.spawn(process(0x1000, 0x2000));
    s.spawn(process(0x3000, 0x4000));
    assert_eq!(s.next().unwrap().instruction_pointer, 0x2000);
    assert_eq!(s.next().unwrap().instruction_pointer, 0x4000);
    assert_eq!(s.current(), Some(PId(1)));
    assert_eq!(s.next(), None);
    assert_eq!(s.current(), Some(PId(1)));
}

#[test]
fn process_table_spawn_and_switch() {
    let mut t = ProcessTable::new();
    assert_eq!(current(&t), None);
    assert_eq!(switch_to(&mut t, PId::new(0)), None);
    assert_eq!(spawn(&mut t, process(0x600000, 0x400000)), PId(0));
    assert_eq!(spawn(&mut t, process(0x601000, 0x401000)), PId(1));
    let e = switch_to(&mut t, PId::new(1)).unwrap();
    assert_eq!(e.instruction_pointer, 0x401000);
    assert_eq!(current(&t), Some(PId(1)));
    get_mut(&mut t, PId(0)).unwrap().state.rax = 5;
    assert_eq!(get_mut(&mut t, PId(0)).unwrap().state.rax, 5);
    assert!(get_mut(&mut t, PId(2)).is_none());
}

#[test]
fn process_creation_takes_pages_and_frames() {
    let map = vec![MemoryRegion { start: 0x5000, end: 0x9000, kind: MemoryRegionKind::Usable }];
    let mut frames = BootInfoFrameAllocator::init(map);
    let mut counters = AddressCounters::new();
    let (p, pages) = Process::create(&mut counters, &mut frames).unwrap();
    assert_eq!(p.stack_addr, 0x60_0000);
    assert_eq!(p.code_addr, 0x40_0000);
    assert_eq!(p.state, State::zeroed());
    assert_eq!(pages.stack_frame, Frame { start_address: 0x5000 });
    assert_eq!(pages.code_frame, Frame { start_address: 0x6000 });
    let (q, _) = Process::create(&mut counters, &mut frames).unwrap();
    assert_eq!(q.stack_addr, 0x60_1000);
    assert_eq!(q.code_addr, 0x40_1000);
    assert!(Process::create(&mut counters, &mut frames).is_none());
    assert_eq!(counters, AddressCounters { stack: 0x60_2000, code: 0x40_2000 });
}

#[test]
fn syscalls_decode() {
    assert_eq!(decode_syscall(0, 0x1ff), Syscall::FillFramebuffer(0xff));
    assert_eq!(decode_syscall(1, 42), Syscall::OpenStream(42));
    assert_eq!(decode_syscall(2, 42), Syscall::Ignored);
}

#[test]
fn timer_tick_decisions() {
    assert_eq!(
        on_timer_tick(true, None, 1),
        TickActions { run_tasks: true, start: Some(PId(0)) }
    );
    assert_eq!(
        on_timer_tick(false, None, 0),
        TickActions { run_tasks: false, start: None }
    );
    assert_eq!(
        on_timer_tick(true, Some(PId(0)), 1),
        TickActions { run_tasks: true, start: None }
    );
    assert_eq!(InterruptIndex::Timer.as_u8(), 32);
    assert_eq!(InterruptIndex::Keyboard.as_usize(), 33);
}

#[test]
fn isolated_process_gets_its_own_table() {
    let map = vec![MemoryRegion { start: 0x10000, end: 0x16000, kind: MemoryRegionKind::Usable }];
    let mut frames = BootInfoFrameAllocator::init(map);
    let (p, f) = Process::create_isolated(&mut frames).unwrap();
    assert_eq!(p.page_table_root, Some(0x10000));
    assert_eq!(f.page_table, Frame { start_address: 0x10000 });
    assert_eq!(f.stack, Frame { start_address: 0x11000 });
    assert_eq!(f.code, Frame { start_address: 0x12000 });
    assert_eq!(f.kernel_stack, Frame { start_address: 0x13000 });
    assert_eq!(p.entry(), UserEntry {
        instruction_pointer: USER_CODE_ADDR,
        stack_pointer: USER_STACK_ADDR,
        page_table_root: Some(0x10000),
    });
    // Two frames are left: not enough for another one.
    assert!(Process::create_isolated(&mut frames).is_none());
    assert_eq!(frames.allocate_frame(), None);
}
