use kcore::allocator::fixed_size::FixedSize;
use kcore::allocator::{heap_pages, Layout, HEAP_SIZE, HEAP_START};
use kcore::memory::{BootInfoFrameAllocator, MemoryRegion, MemoryRegionKind};

#[test]
fn boot_heap_end_to_end() {
    let map = vec![MemoryRegion {
        start: 0x10_0000,
        end: 0x10_0000 + 100 * 1024,
        kind: MemoryRegionKind::Usable,
    }];
    let mut frames = BootInfoFrameAllocator::init(map);
    let mut mapped = Vec::new();
    for page in heap_pages(HEAP_START, HEAP_SIZE) {
        let frame = frames.allocate_frame().expect("out of frames");
        mapped.push((page, frame.start_address));
    }
    assert_eq!(mapped.len(), 25);
    assert_eq!(mapped[0], (HEAP_START, 0x10_0000));
    assert_eq!(frames.allocate_frame(), None);

    let mut heap = FixedSize::new();
    heap.init(HEAP_START, HEAP_SIZE);
    let small = Layout::from_size_align(16, 8).unwrap();
    let large = Layout::from_size_align(4096, 8).unwrap();
    assert_eq!(FixedSize::list_index(&small), Some(1));
    assert_eq!(FixedSize::list_index(&large), None);
    let a = heap.allocate(small).unwrap();
    let b = heap.allocate(large).unwrap();
    assert_eq!(a, HEAP_START);
    assert_eq!(b, HEAP_START + 16);
    heap.deallocate(a, small);
    heap.deallocate(b, large);
    assert_eq!(heap.allocate(small), Some(a));
    assert_eq!(heap.allocate(large), Some(b));
}
