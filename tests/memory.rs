use kcore::memory::{BootInfoFrameAllocator, Frame, MemoryRegion, MemoryRegionKind};

fn region(start: u64, end: u64, kind: MemoryRegionKind) -> MemoryRegion {
    MemoryRegion { start, end, kind }
}

#[test]
fn frames_come_in_order_then_run_out() {
    let map = vec![
        region(0x0, 0x1000, MemoryRegionKind::Bootloader),
        region(0x1000, 0x4000, MemoryRegionKind::Usable),
        region(0x4000, 0x8000, MemoryRegionKind::UnknownBios(2)),
        region(0x8000, 0xa000, MemoryRegionKind::Usable),
    ];
    let mut fa = BootInfoFrameAllocator::init(map);
    let mut got = Vec::new();
    for _ in 0..5 {
        got.push(fa.allocate_frame().unwrap().start_address);
    }
    assert_eq!(got, vec![0x1000, 0x2000, 0x3000, 0x8000, 0x9000]);
    for w in got.windows(2) {
        assert!(w[0] < w[1]);
    }
    assert_eq!(fa.allocate_frame(), None);
    assert_eq!(fa.allocate_frame(), None);
}

#[test]
fn unaligned_region_gives_containing_frames() {
    let map = vec![region(0x1800, 0x3000, MemoryRegionKind::Usable)];
    let mut fa = BootInfoFrameAllocator::init(map);
    assert_eq!(fa.allocate_frame(), Some(Frame { start_address: 0x1000 }));
    assert_eq!(fa.allocate_frame(), Some(Frame { start_address: 0x2000 }));
    assert_eq!(fa.allocate_frame(), None);
}

#[test]
fn no_usable_memory() {
    let map = vec![
        region(0x0, 0x10000, MemoryRegionKind::UnknownUefi(7)),
        region(0x10000, 0x10000, MemoryRegionKind::Usable),
    ];
    let mut fa = BootInfoFrameAllocator::init(map);
    assert_eq!(fa.allocate_frame(), None);
}
