//! The fixed-size tier: one free list per size class, backed by the
//! linked-list tier.
//!
//! A request goes to the smallest class that holds both its size and its
//! alignment. A freed block always returns to its class's list and is never
//! handed back to the linked-list tier. Requests above the largest class go
//! to the linked-list tier directly.
use vstd::prelude::*;

use super::linked_list::{lemma_free_then_realloc, spec_alloc, spec_dealloc, spec_size_align, LinkedList, Node, NODE_ALIGN};
use super::{is_pow2, Layout};

verus! {

/// Number of size classes.
pub const NUM_CLASSES: usize = 9;

/// The block size of class `i`: 8, 16, 32, ..., 2048 bytes.
pub open spec fn class_size(i: int) -> int {
    if i == 0 {
        8
    } else if i == 1 {
        16
    } else if i == 2 {
        32
    } else if i == 3 {
        64
    } else if i == 4 {
        128
    } else if i == 5 {
        256
    } else if i == 6 {
        512
    } else if i == 7 {
        1024
    } else {
        2048
    }
}

/// The smallest class whose blocks hold `required` bytes, if any.
pub open spec fn class_of(required: int) -> Option<int> {
    if required <= 8 {
        Some(0)
    } else if required <= 16 {
        Some(1)
    } else if required <= 32 {
        Some(2)
    } else if required <= 64 {
        Some(3)
    } else if required <= 128 {
        Some(4)
    } else if required <= 256 {
        Some(5)
    } else if required <= 512 {
        Some(6)
    } else if required <= 1024 {
        Some(7)
    } else if required <= 2048 {
        Some(8)
    } else {
        None
    }
}

/// The number of bytes that a request must find in its block.
pub open spec fn required_size(layout: Layout) -> int {
    if layout.size >= layout.align {
        layout.size as int
    } else {
        layout.align as int
    }
}

/// The layout of a fresh block of class `i`, taken from the linked-list tier.
pub open spec fn class_layout(i: int) -> Layout {
    Layout { size: class_size(i) as u64, align: class_size(i) as u64 }
}

/// The class lists, the linked-list tier's free list and the block handed
/// out after serving `layout`.
pub open spec fn spec_fixed_alloc(lists: Seq<Seq<u64>>, fallback: Seq<Node>, layout: Layout) -> (
    Seq<Seq<u64>>,
    Seq<Node>,
    Option<u64>,
) {
    match class_of(required_size(layout)) {
        Some(i) => if lists[i].len() > 0 {
            (lists.update(i, lists[i].drop_last()), fallback, Some(lists[i].last()))
        } else {
            let (f, r) = spec_alloc(fallback, class_layout(i));
            (lists, f, r)
        },
        None => {
            let (f, r) = spec_alloc(fallback, layout);
            (lists, f, r)
        },
    }
}

/// The class lists and the linked-list tier's free list after the block at
/// `ptr`, allocated for `layout`, was freed.
pub open spec fn spec_fixed_dealloc(
    lists: Seq<Seq<u64>>,
    fallback: Seq<Node>,
    ptr: u64,
    layout: Layout,
) -> (Seq<Seq<u64>>, Seq<Node>) {
    match class_of(required_size(layout)) {
        Some(i) => (lists.update(i, lists[i].push(ptr)), fallback),
        None => (lists, spec_dealloc(fallback, ptr, layout)),
    }
}

/// What a free block at `ptr` of a request for `layout` must satisfy to be
/// given back: blocks above the largest class must be able to hold a node of
/// the linked-list tier.
pub open spec fn dealloc_ok(ptr: u64, layout: Layout) -> bool {
    class_of(required_size(layout)) is None ==> {
        &&& ptr % NODE_ALIGN == 0
        &&& ptr + spec_size_align(layout).0 <= u64::MAX
    }
}

/// The block size of class `i`.
fn block_size(i: usize) -> (r: u64)
    requires
        i < NUM_CLASSES,
    ensures
        r == class_size(i as int),
{
    if i == 0 {
        8
    } else if i == 1 {
        16
    } else if i == 2 {
        32
    } else if i == 3 {
        64
    } else if i == 4 {
        128
    } else if i == 5 {
        256
    } else if i == 6 {
        512
    } else if i == 7 {
        1024
    } else {
        2048
    }
}

/// The allocator of both tiers.
pub struct FixedSize {
    ready: bool,
    list_heads: Vec<Vec<u64>>,
    fallback: LinkedList,
}

impl FixedSize {
    /// The free blocks of each class; the head of a list is its last item.
    pub closed spec fn lists(&self) -> Seq<Seq<u64>> {
        self.list_heads@.map_values(|l: Vec<u64>| l@)
    }

    /// The free regions of the linked-list tier.
    pub closed spec fn fallback_list(&self) -> Seq<Node> {
        self.fallback@
    }

    /// Whether the allocator was given its heap.
    pub closed spec fn spec_ready(&self) -> bool {
        self.ready
    }

    pub closed spec fn wf(&self) -> bool {
        &&& self.list_heads.len() == NUM_CLASSES
        &&& self.fallback.wf()
    }

    /// What a well-formed allocator gives its callers: one free list per
    /// class, and free regions of the linked-list tier that can each hold
    /// their node.
    pub proof fn lemma_wf(&self)
        requires
            self.wf(),
        ensures
            self.lists().len() == NUM_CLASSES,
            forall|i: int|
                0 <= i < self.fallback_list().len() ==> (#[trigger] self.fallback_list()[i]).wf(),
    {
    }

    /// An allocator with empty class lists and no memory.
    pub fn new() -> (r: FixedSize)
        ensures
            r.wf(),
            !r.spec_ready(),
            r.lists() == Seq::new(NUM_CLASSES as nat, |i: int| Seq::<u64>::empty()),
            r.fallback_list() == Seq::<Node>::empty(),
    {
        let mut list_heads: Vec<Vec<u64>> = Vec::new();
        let mut i: usize = 0;
        while i < NUM_CLASSES
            invariant
                i <= NUM_CLASSES,
                list_heads.len() == i,
                forall|k: int| 0 <= k < i ==> (#[trigger] list_heads@[k])@ == Seq::<u64>::empty(),
            decreases NUM_CLASSES - i,
        {
            list_heads.push(Vec::new());
            i = i + 1;
        }
        let r = FixedSize { ready: false, list_heads, fallback: LinkedList::new() };
        assert(r.lists() =~= Seq::new(NUM_CLASSES as nat, |i: int| Seq::<u64>::empty()));
        r
    }

    /// Hands the heap of `heap_size` bytes at `heap_start` to the allocator.
    pub fn init(&mut self, heap_start: u64, heap_size: u64)
        requires
            old(self).wf(),
            heap_start % NODE_ALIGN == 0,
            heap_size >= super::linked_list::NODE_SIZE,
            heap_start + heap_size <= u64::MAX,
        ensures
            final(self).wf(),
            final(self).spec_ready(),
            final(self).lists() == old(self).lists(),
            final(self).fallback_list() == seq![Node { start: heap_start, size: heap_size }]
                + old(self).fallback_list(),
    {
        self.ready = true;
        self.fallback.init(heap_start, heap_size);
    }

    /// Whether the allocator was given its heap.
    pub fn is_ready(&self) -> (r: bool)
        ensures
            r == self.spec_ready(),
    {
        self.ready
    }

    /// The class that serves `layout`, or `None` for requests above the
    /// largest class.
    pub fn list_index(layout: &Layout) -> (r: Option<usize>)
        ensures
            match class_of(required_size(*layout)) {
                Some(i) => r == Some(i as usize),
                None => r is None,
            },
    {
        let required = if layout.size >= layout.align {
            layout.size
        } else {
            layout.align
        };
        let mut i: usize = 0;
        while i < NUM_CLASSES
            invariant
                i <= NUM_CLASSES,
                required == required_size(*layout),
                forall|k: int| 0 <= k < i ==> class_size(k) < required,
            decreases NUM_CLASSES - i,
        {
            if block_size(i) >= required {
                proof {
                    if i > 0 {
                        assert(class_size(i - 1) < required);
                    }
                }
                return Some(i);
            }
            i = i + 1;
        }
        assert(class_size(8) < required);
        None
    }

    /// Allocates a block for `layout`: the head of its class's list when
    /// there is one, else a fresh block from the linked-list tier. `None`
    /// when the heap is exhausted.
    pub fn allocate(&mut self, layout: Layout) -> (r: Option<u64>)
        requires
            old(self).wf(),
            layout.wf(),
        ensures
            final(self).wf(),
            final(self).spec_ready() == old(self).spec_ready(),
            (final(self).lists(), final(self).fallback_list(), r) == spec_fixed_alloc(
                old(self).lists(),
                old(self).fallback_list(),
                layout,
            ),
    {
        match Self::list_index(&layout) {
            Some(i) => {
                let n = self.list_heads[i].len();
                if n > 0 {
                    let addr = self.list_heads[i].pop().unwrap();
                    assert(self.lists() =~= old(self).lists().update(
                        i as int,
                        old(self).lists()[i as int].drop_last(),
                    ));
                    Some(addr)
                } else {
                    let size = block_size(i);
                    proof {
                        lemma_class_layout_wf(i as int);
                    }
                    let block = Layout { size, align: size };
                    self.fallback.allocate(block)
                }
            },
            None => self.fallback.allocate(layout),
        }
    }

    /// Frees the block at `ptr`, allocated for `layout`: it goes to the head
    /// of its class's list, or back to the linked-list tier above the largest
    /// class.
    pub fn deallocate(&mut self, ptr: u64, layout: Layout)
        requires
            old(self).wf(),
            layout.wf(),
            dealloc_ok(ptr, layout),
        ensures
            final(self).wf(),
            final(self).spec_ready() == old(self).spec_ready(),
            (final(self).lists(), final(self).fallback_list()) == spec_fixed_dealloc(
                old(self).lists(),
                old(self).fallback_list(),
                ptr,
                layout,
            ),
    {
        match Self::list_index(&layout) {
            Some(i) => {
                self.list_heads[i].push(ptr);
                assert(self.lists() =~= old(self).lists().update(
                    i as int,
                    old(self).lists()[i as int].push(ptr),
                ));
            },
            None => self.fallback.deallocate(ptr, layout),
        }
    }
}

/// A block of a size class that is freed and then asked for again, by a
/// request of the same class, comes back at the same address: the class's
/// free list is reused.
pub proof fn lemma_class_block_reused(
    lists: Seq<Seq<u64>>,
    fallback: Seq<Node>,
    layout: Layout,
    again: Layout,
)
    requires
        lists.len() == NUM_CLASSES,
        class_of(required_size(layout)) is Some,
        class_of(required_size(again)) == class_of(required_size(layout)),
        spec_fixed_alloc(lists, fallback, layout).2 is Some,
    ensures
        ({
            let (l1, f1, r1) = spec_fixed_alloc(lists, fallback, layout);
            let (l2, f2) = spec_fixed_dealloc(l1, f1, r1->Some_0, layout);
            &&& spec_fixed_alloc(l2, f2, again) == (l1, f1, r1)
        }),
{
    let (l1, f1, r1) = spec_fixed_alloc(lists, fallback, layout);
    let i = class_of(required_size(layout))->Some_0;
    let (l2, f2) = spec_fixed_dealloc(l1, f1, r1->Some_0, layout);
    assert(l2[i] == l1[i].push(r1->Some_0));
    assert(l2[i].drop_last() =~= l1[i]);
    assert(l2.update(i, l2[i].drop_last()) =~= l1);
}

/// A block handed out by the allocator can be given back for the same
/// layout.
pub proof fn lemma_allocated_block_can_be_freed(
    lists: Seq<Seq<u64>>,
    fallback: Seq<Node>,
    layout: Layout,
)
    requires
        forall|i: int| 0 <= i < fallback.len() ==> (#[trigger] fallback[i]).wf(),
        layout.wf(),
        spec_fixed_alloc(lists, fallback, layout).2 is Some,
    ensures
        dealloc_ok(spec_fixed_alloc(lists, fallback, layout).2->Some_0, layout),
{
    if class_of(required_size(layout)) is None {
        lemma_free_then_realloc(fallback, layout);
    }
}

/// A request above the largest class never touches the class lists: it is
/// served, and freed, by the linked-list tier alone.
pub proof fn lemma_large_requests_bypass_classes(
    lists: Seq<Seq<u64>>,
    fallback: Seq<Node>,
    layout: Layout,
    ptr: u64,
)
    requires
        required_size(layout) > 2048,
    ensures
        spec_fixed_alloc(lists, fallback, layout) == (
            lists,
            spec_alloc(fallback, layout).0,
            spec_alloc(fallback, layout).1,
        ),
        spec_fixed_dealloc(lists, fallback, ptr, layout) == (
            lists,
            spec_dealloc(fallback, ptr, layout),
        ),
{
}

/// The layout of a fresh block of a class is valid.
proof fn lemma_class_layout_wf(i: int)
    requires
        0 <= i < NUM_CLASSES,
    ensures
        class_layout(i).wf(),
{
    reveal_with_fuel(is_pow2, 12);
}

} // verus!
