use kcore::allocator::fixed_size::FixedSize;
use kcore::allocator::linked_list::{LinkedList, Node};
use kcore::allocator::{align_up, heap_pages, is_power_of_two, Layout, HEAP_SIZE, HEAP_START};

fn layout(size: u64, align: u64) -> Layout {
    Layout::from_size_align(size, align).unwrap()
}

#[test]
fn align_up_rounds_to_multiples() {
    assert_eq!(align_up(0, 8), Some(0));
    assert_eq!(align_up(1, 8), Some(8));
    assert_eq!(align_up(8, 8), Some(8));
    assert_eq!(align_up(4097, 4096), Some(8192));
    assert_eq!(align_up(13, 5), Some(15));
    assert_eq!(align_up(u64::MAX, 16), None);
}

#[test]
fn layout_validity() {
    assert!(Layout::from_size_align(16, 8).is_some());
    assert!(Layout::from_size_align(16, 0).is_none());
    assert!(Layout::from_size_align(16, 24).is_none());
    assert!(Layout::from_size_align(0, 1 << 63).is_some());
    assert!(Layout::from_size_align(1, 1 << 63).is_none());
    assert!(is_power_of_two(1));
    assert!(is_power_of_two(2048));
    assert!(!is_power_of_two(0));
    assert!(!is_power_of_two(12));
}

#[test]
fn size_align_rounds_to_node() {
    assert_eq!(LinkedList::size_align(layout(1, 1)), (16, 16));
    assert_eq!(LinkedList::size_align(layout(0, 8)), (16, 16));
    assert_eq!(LinkedList::size_align(layout(17, 8)), (32, 16));
    assert_eq!(LinkedList::size_align(layout(0, 32)), (16, 32));
    assert_eq!(LinkedList::size_align(layout(40, 32)), (64, 32));
}

#[test]
fn node_addresses() {
    let n = Node::new(0x1000, 0x40);
    assert_eq!(n.start_addr(), 0x1000);
    assert_eq!(n.end_addr(), 0x1040);
}

#[test]
fn empty_list_has_nothing() {
    let mut l = LinkedList::new();
    assert_eq!(l.allocate(layout(16, 8)), None);
}

#[test]
fn first_fit_splits_region() {
    let mut l = LinkedList::new();
    l.init(0x1000, 0x1000);
    assert_eq!(l.allocate(layout(16, 8)), Some(0x1000));
    assert_eq!(l.allocate(layout(100, 8)), Some(0x1010));
    // 100 bytes round up to 112: the next block starts at 0x1010 + 0x70.
    assert_eq!(l.allocate(layout(8, 64)), Some(0x1080));
}

#[test]
fn fallback_alloc_free_realloc_does_not_leak() {
    let mut l = LinkedList::new();
    l.init(0x1000, 0x100);
    let p = l.allocate(layout(0x100, 8)).unwrap();
    assert_eq!(p, 0x1000);
    assert_eq!(l.allocate(layout(16, 8)), None);
    l.deallocate(p, layout(0x100, 8));
    assert_eq!(l.allocate(layout(0x100, 8)), Some(0x1000));
    for _ in 0..10 {
        l.deallocate(0x1000, layout(0x100, 8));
        assert_eq!(l.allocate(layout(0x100, 8)), Some(0x1000));
    }
}

#[test]
fn fallback_skips_region_with_tiny_tail() {
    let mut l = LinkedList::new();
    l.add_free_region(0x2000, 32);
    // 40 bytes: a 32-byte block would leave 8 bytes, too few for a node.
    l.add_free_region(0x1000, 40);
    assert_eq!(l.allocate(layout(32, 8)), Some(0x2000));
    // The skipped region is still free and serves a smaller block.
    assert_eq!(l.allocate(layout(16, 8)), Some(0x1000));
    // What is left, 24 bytes, again cannot hold a block and a node.
    assert_eq!(l.allocate(layout(16, 8)), None);
}

#[test]
fn fallback_exact_fit_leaves_no_tail() {
    let mut l = LinkedList::new();
    l.init(0x1000, 48);
    assert_eq!(l.allocate(layout(48, 16)), Some(0x1000));
    assert_eq!(l.allocate(layout(16, 16)), None);
}

#[test]
fn fallback_no_coalescing() {
    let mut l = LinkedList::new();
    l.init(0x1000, 64);
    let a = l.allocate(layout(32, 16)).unwrap();
    let b = l.allocate(layout(32, 16)).unwrap();
    assert_eq!((a, b), (0x1000, 0x1020));
    l.deallocate(a, layout(32, 16));
    l.deallocate(b, layout(32, 16));
    // Two adjacent free blocks of 32 bytes are not merged into 64.
    assert_eq!(l.allocate(layout(64, 16)), None);
}

#[test]
fn fixed_size_classes_reuse_freed_blocks() {
    for &c in &[8u64, 16, 32, 64, 128, 256, 512, 1024, 2048] {
        let mut h = FixedSize::new();
        h.init(0x10_0000, 0x10_0000);
        let mut align = 1;
        while align <= c {
            let l = layout(c, align);
            let p = h.allocate(l).unwrap();
            assert_eq!(p % c, 0);
            h.deallocate(p, l);
            assert_eq!(h.allocate(layout(c, 1)), Some(p));
            h.deallocate(p, layout(c, 1));
            align *= 2;
        }
    }
}

#[test]
fn fixed_size_small_requests_share_a_class() {
    let mut h = FixedSize::new();
    h.init(0x10_0000, 0x1000);
    let p = h.allocate(layout(3, 1)).unwrap();
    h.deallocate(p, layout(3, 1));
    // 5 bytes with alignment 8 go to the same 8-byte class.
    assert_eq!(h.allocate(layout(5, 8)), Some(p));
}

#[test]
fn fixed_size_large_requests_go_to_fallback() {
    let mut h = FixedSize::new();
    h.init(0x10_0000, 0x4000);
    let big = layout(4096, 8);
    let p = h.allocate(big).unwrap();
    assert_eq!(p, 0x10_0000);
    h.deallocate(p, big);
    // The freed block went back to the linked-list tier, head of its list:
    // a small request now carves its class block out of it.
    assert_eq!(h.allocate(layout(16, 16)), Some(0x10_0000));
    // Alignment alone above 2048 also bypasses the classes.
    let q = h.allocate(layout(16, 4096)).unwrap();
    assert_eq!(q % 4096, 0);
    assert_ne!(q, 0x10_0000);
}

#[test]
fn fixed_size_readiness() {
    let mut h = FixedSize::new();
    assert!(!h.is_ready());
    assert_eq!(h.allocate(layout(8, 8)), None);
    h.init(HEAP_START, HEAP_SIZE);
    assert!(h.is_ready());
}

#[test]
fn fixed_size_exhaustion() {
    let mut h = FixedSize::new();
    h.init(0x1000, 64);
    assert_eq!(h.allocate(layout(64, 8)), Some(0x1000));
    assert_eq!(h.allocate(layout(8, 8)), None);
}

#[test]
fn list_index_of_classes() {
    assert_eq!(FixedSize::list_index(&layout(1, 1)), Some(0));
    assert_eq!(FixedSize::list_index(&layout(8, 8)), Some(0));
    assert_eq!(FixedSize::list_index(&layout(9, 1)), Some(1));
    assert_eq!(FixedSize::list_index(&layout(1, 64)), Some(3));
    assert_eq!(FixedSize::list_index(&layout(2048, 8)), Some(8));
    assert_eq!(FixedSize::list_index(&layout(2049, 8)), None);
    assert_eq!(FixedSize::list_index(&layout(8, 4096)), None);
}

#[test]
fn heap_pages_cover_heap() {
    let pages = heap_pages(HEAP_START, HEAP_SIZE);
    assert_eq!(pages.len(), 25);
    assert_eq!(pages[0], HEAP_START);
    assert_eq!(pages[24], HEAP_START + 24 * 4096);
    let odd = heap_pages(0x1ff0, 0x20);
    assert_eq!(odd, vec![0x1000, 0x2000]);
}

#[test]
fn alloc_from_region_rejects_tiny_tail() {
    let n = Node::new(0x1000, 40);
    assert_eq!(LinkedList::alloc_from_region(&n, 32, 16), Err(()));
    assert_eq!(LinkedList::alloc_from_region(&n, 40, 8), Ok(0x1000));
    assert_eq!(LinkedList::alloc_from_region(&n, 16, 16), Ok(0x1000));
    assert_eq!(LinkedList::alloc_from_region(&n, 48, 8), Err(()));
    let m = Node::new(0x1008, 0x100);
    assert_eq!(LinkedList::alloc_from_region(&m, 16, 16), Ok(0x1010));
}

#[test]
fn find_region_takes_first_fit_and_keeps_order() {
    let mut l = LinkedList::new();
    l.add_free_region(0x3000, 64);
    l.add_free_region(0x2000, 64);
    l.add_free_region(0x1000, 40);
    assert_eq!(l.find_region(32, 16), Some((Node::new(0x2000, 64), 0x2000)));
    assert_eq!(l.find_region(32, 16), Some((Node::new(0x3000, 64), 0x3000)));
    assert_eq!(l.find_region(32, 16), None);
    assert_eq!(l.find_region(40, 8), Some((Node::new(0x1000, 40), 0x1000)));
}
