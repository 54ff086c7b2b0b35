//! The linked-list tier: a first-fit allocator over a list of free regions.
//!
//! Each free region records its start and its size. A region must be able to
//! hold that record itself, so no region smaller than `NODE_SIZE` is ever
//! tracked. Freed regions go to the head of the list and are never merged
//! with their neighbours.
use vstd::prelude::*;

use super::{align_up, lemma_align_up, lemma_pow2_multiple_of_8, spec_align_up, Layout};

verus! {

/// Bytes of metadata that a free region holds: its size and its link.
pub const NODE_SIZE: u64 = 16;

/// Alignment of the metadata of a free region.
pub const NODE_ALIGN: u64 = 8;

/// A free region of the heap.
#[derive(Clone, Copy, Debug, PartialEq, Eq, Structural)]
pub struct Node {
    pub start: u64,
    pub size: u64,
}

impl Node {
    /// A free region of `size` bytes at `start`.
    pub fn new(start: u64, size: u64) -> (r: Node)
        ensures
            r.start == start,
            r.size == size,
    {
        Node { start, size }
    }

    pub open spec fn end(&self) -> int {
        self.start + self.size
    }

    /// The region is aligned for its metadata, large enough to hold it and
    /// lies within the address space.
    pub open spec fn wf(&self) -> bool {
        &&& self.start % NODE_ALIGN == 0
        &&& self.size >= NODE_SIZE
        &&& self.end() <= u64::MAX
    }

    /// First address of the region.
    pub fn start_addr(&self) -> (r: u64)
        ensures
            r == self.start,
    {
        self.start
    }

    /// Address just past the region.
    pub fn end_addr(&self) -> (r: u64)
        requires
            self.wf(),
        ensures
            r == self.end(),
    {
        self.start + self.size
    }
}

/// Where an allocation of `size` bytes aligned to `align` would start inside
/// `region`: `None` when it does not fit, or when it would leave behind a
/// non-empty tail too small to hold a node.
pub open spec fn fit_start(region: Node, size: int, align: int) -> Option<int> {
    let start = spec_align_up(region.start as int, align);
    let end = start + size;
    if end > region.end() {
        None
    } else if end < region.end() && region.end() - end < NODE_SIZE {
        None
    } else {
        Some(start)
    }
}

pub open spec fn fits(region: Node, size: int, align: int) -> bool {
    fit_start(region, size, align) is Some
}

/// `i` is the first region of `regions` from which the request can be served.
pub open spec fn is_first_fit(regions: Seq<Node>, size: int, align: int, i: int) -> bool {
    &&& 0 <= i < regions.len()
    &&& fits(regions[i], size, align)
    &&& forall|j: int| 0 <= j < i ==> !fits(#[trigger] regions[j], size, align)
}

/// The index of the first region that can serve the request, if any.
pub open spec fn first_fit(regions: Seq<Node>, size: int, align: int) -> Option<int> {
    if exists|i: int| is_first_fit(regions, size, align, i) {
        Some(choose|i: int| is_first_fit(regions, size, align, i))
    } else {
        None
    }
}

/// The size and alignment actually reserved for `layout`: both at least the
/// size of a node, and the size a multiple of the alignment.
pub open spec fn spec_size_align(layout: Layout) -> (int, int) {
    let align = if layout.align < NODE_SIZE {
        NODE_SIZE as int
    } else {
        layout.align as int
    };
    let padded = spec_align_up(layout.size as int, align);
    let size = if padded < NODE_SIZE {
        NODE_SIZE as int
    } else {
        padded
    };
    (size, align)
}

/// The free list after serving `layout`, and the start of the block handed
/// out (`None` when no region can serve it).
pub open spec fn spec_alloc(regions: Seq<Node>, layout: Layout) -> (Seq<Node>, Option<u64>) {
    let (size, align) = spec_size_align(layout);
    match first_fit(regions, size, align) {
        None => (regions, None),
        Some(i) => {
            let start = fit_start(regions[i], size, align)->Some_0;
            let end = start + size;
            let rest = regions.remove(i);
            if end < regions[i].end() {
                (
                    seq![Node { start: end as u64, size: (regions[i].end() - end) as u64 }] + rest,
                    Some(start as u64),
                )
            } else {
                (rest, Some(start as u64))
            }
        },
    }
}

/// The free list after `size_align(layout).0` bytes at `ptr` were freed.
pub open spec fn spec_dealloc(regions: Seq<Node>, ptr: u64, layout: Layout) -> Seq<Node> {
    seq![Node { start: ptr, size: spec_size_align(layout).0 as u64 }] + regions
}

/// The first-fit allocator.
pub struct LinkedList {
    regions: Vec<Node>,
}

impl View for LinkedList {
    type V = Seq<Node>;

    closed spec fn view(&self) -> Seq<Node> {
        self.regions@
    }
}

impl LinkedList {
    /// Every free region is well formed.
    pub open spec fn wf(&self) -> bool {
        forall|i: int| 0 <= i < self@.len() ==> (#[trigger] self@[i]).wf()
    }

    /// An allocator with no free memory.
    pub fn new() -> (r: LinkedList)
        ensures
            r.wf(),
            r@ == Seq::<Node>::empty(),
    {
        LinkedList { regions: Vec::new() }
    }

    /// Hands the region of `heap_size` bytes at `heap_start` to the allocator.
    pub fn init(&mut self, heap_start: u64, heap_size: u64)
        requires
            old(self).wf(),
            heap_start % NODE_ALIGN == 0,
            heap_size >= NODE_SIZE,
            heap_start + heap_size <= u64::MAX,
        ensures
            final(self).wf(),
            final(self)@ == seq![Node { start: heap_start, size: heap_size }] + old(self)@,
    {
        self.add_free_region(heap_start, heap_size);
    }

    /// Puts the region of `size` bytes at `addr` at the head of the free list.
    pub fn add_free_region(&mut self, addr: u64, size: u64)
        requires
            old(self).wf(),
            addr % NODE_ALIGN == 0,
            size >= NODE_SIZE,
            addr + size <= u64::MAX,
        ensures
            final(self).wf(),
            final(self)@ == seq![Node { start: addr, size }] + old(self)@,
    {
        let node = Node::new(addr, size);
        self.regions.insert(0, node);
        assert(self@ =~= seq![node] + old(self)@);
    }

    /// Whether `size` bytes aligned to `align` can be served from `region`;
    /// on success, where the allocation starts.
    pub fn alloc_from_region(region: &Node, size: u64, align: u64) -> (r: Result<u64, ()>)
        requires
            region.wf(),
            align > 0,
        ensures
            match r {
                Ok(a) => fit_start(*region, size as int, align as int) == Some(a as int),
                Err(_) => fit_start(*region, size as int, align as int) is None,
            },
    {
        proof {
            lemma_align_up(region.start as int, align as int);
        }
        let alloc_start = match align_up(region.start_addr(), align) {
            Some(a) => a,
            None => return Err(()),
        };
        let alloc_end = match alloc_start.checked_add(size) {
            Some(e) => e,
            None => return Err(()),
        };
        let region_end = region.end_addr();
        if alloc_end > region_end {
            return Err(());
        }
        let excess_size = region_end - alloc_end;
        if excess_size > 0 && excess_size < NODE_SIZE {
            return Err(());
        }
        Ok(alloc_start)
    }

    /// Removes the first region that can serve the request from the list,
    /// and returns it with the start of the allocation.
    pub fn find_region(&mut self, size: u64, align: u64) -> (r: Option<(Node, u64)>)
        requires
            old(self).wf(),
            align > 0,
        ensures
            final(self).wf(),
            match first_fit(old(self)@, size as int, align as int) {
                None => r is None && final(self)@ == old(self)@,
                Some(i) => {
                    &&& r == Some(
                        (
                            old(self)@[i],
                            fit_start(old(self)@[i], size as int, align as int)->Some_0 as u64,
                        ),
                    )
                    &&& final(self)@ == old(self)@.remove(i)
                },
            },
    {
        let ghost regions = self@;
        let mut i: usize = 0;
        while i < self.regions.len()
            invariant
                self@ == regions,
                regions == old(self)@,
                self.wf(),
                align > 0,
                i <= regions.len(),
                forall|j: int| 0 <= j < i ==> !fits(#[trigger] regions[j], size as int, align as int),
            decreases regions.len() - i,
        {
            match Self::alloc_from_region(&self.regions[i], size, align) {
                Ok(alloc_start) => {
                    proof {
                        assert(is_first_fit(regions, size as int, align as int, i as int));
                        let k = choose|k: int| is_first_fit(regions, size as int, align as int, k);
                        assert(k == i as int) by {
                            if k < i {
                                assert(!fits(regions[k], size as int, align as int));
                            }
                            if k > i {
                                assert(!fits(regions[i as int], size as int, align as int));
                            }
                        }
                        assert(first_fit(regions, size as int, align as int) == Some(i as int));
                        assert(fit_start(regions[i as int], size as int, align as int)->Some_0
                            == alloc_start as int);
                    }
                    let reg = self.regions.remove(i);
                    assert(self@ == regions.remove(i as int));
                    assert(reg == regions[i as int]);
                    assert(self.wf()) by {
                        assert forall|k: int| 0 <= k < self@.len() implies (#[trigger] self@[k]).wf() by {
                            if k < i {
                                assert(self@[k] == regions[k]);
                            } else {
                                assert(self@[k] == regions[k + 1]);
                            }
                        }
                    }
                    return Some((reg, alloc_start));
                },
                Err(_) => {},
            }
            i = i + 1;
        }
        proof {
            assert forall|k: int| !is_first_fit(regions, size as int, align as int, k) by {
                if 0 <= k < regions.len() {
                    assert(!fits(regions[k], size as int, align as int));
                }
            }
        }
        None
    }

    /// The size and alignment reserved for `layout`.
    pub fn size_align(layout: Layout) -> (r: (u64, u64))
        requires
            layout.wf(),
        ensures
            r.0 == spec_size_align(layout).0,
            r.1 == spec_size_align(layout).1,
            r.0 % 16 == 0,
            r.1 % 16 == 0,
            r.0 >= NODE_SIZE,
    {
        let align = if layout.align < NODE_SIZE {
            NODE_SIZE
        } else {
            layout.align
        };
        proof {
            lemma_align_up(layout.size as int, align as int);
            if layout.align >= NODE_SIZE {
                lemma_pow2_multiple_of_16(layout.align as int);
            }
        }
        let padded = match align_up(layout.size, align) {
            Some(p) => p,
            None => {
                // Unreachable: the size of a valid layout is far from u64::MAX.
                proof {
                    assert(false);
                }
                0
            },
        };
        let size = if padded < NODE_SIZE {
            NODE_SIZE
        } else {
            padded
        };
        proof {
            lemma_mod_transitive(padded as int, align as int, 16);
            if padded < NODE_SIZE {
                vstd::arithmetic::div_mod::lemma_small_mod(padded as nat, align as nat);
                assert(padded == 0);
            }
        }
        (size, align)
    }

    /// Allocates a block for `layout`; `None` when no free region can serve
    /// it. A tail left after the block stays free.
    pub fn allocate(&mut self, layout: Layout) -> (r: Option<u64>)
        requires
            old(self).wf(),
            layout.wf(),
        ensures
            final(self).wf(),
            (final(self)@, r) == spec_alloc(old(self)@, layout),
    {
        let (size, align) = Self::size_align(layout);
        let ghost regions = self@;
        match self.find_region(size, align) {
            Some((reg, alloc_start)) => {
                let ghost i = first_fit(regions, size as int, align as int)->Some_0;
                proof {
                    lemma_align_up(reg.start as int, align as int);
                    lemma_mod_transitive(alloc_start as int, align as int, 16);
                    lemma_mod_sum(alloc_start as int, size as int, 16);
                    lemma_mod_transitive(alloc_start as int + size as int, 16, NODE_ALIGN as int);
                }
                let alloc_end = alloc_start + size;
                let region_end = reg.end_addr();
                let excess_size = region_end - alloc_end;
                if excess_size > 0 {
                    self.add_free_region(alloc_end, excess_size);
                }
                Some(alloc_start)
            },
            None => None,
        }
    }

    /// Returns the block at `ptr`, allocated for `layout`, to the head of
    /// the free list.
    pub fn deallocate(&mut self, ptr: u64, layout: Layout)
        requires
            old(self).wf(),
            layout.wf(),
            ptr % NODE_ALIGN == 0,
            ptr + spec_size_align(layout).0 <= u64::MAX,
        ensures
            final(self).wf(),
            final(self)@ == spec_dealloc(old(self)@, ptr, layout),
    {
        let (size, _) = Self::size_align(layout);
        self.add_free_region(ptr, size);
    }
}

/// Freeing a block and asking again for the same layout gives back the same
/// block and leaves the free list as it was after the first allocation: one
/// allocate/free cycle loses no memory.
pub proof fn lemma_free_then_realloc(regions: Seq<Node>, layout: Layout)
    requires
        forall|i: int| 0 <= i < regions.len() ==> (#[trigger] regions[i]).wf(),
        layout.wf(),
        spec_alloc(regions, layout).1 is Some,
    ensures
        ({
            let (after, p) = spec_alloc(regions, layout);
            &&& p->Some_0 % NODE_ALIGN == 0
            &&& p->Some_0 + spec_size_align(layout).0 <= u64::MAX
            &&& spec_alloc(spec_dealloc(after, p->Some_0, layout), layout) == (after, p)
        }),
{
    let (size, align) = spec_size_align(layout);
    lemma_size_align(layout);
    let i = first_fit(regions, size, align)->Some_0;
    assert(is_first_fit(regions, size, align, i));
    let start = fit_start(regions[i], size, align)->Some_0;
    lemma_align_up(regions[i].start as int, align);
    lemma_mod_transitive(start, align, 16);
    lemma_mod_transitive(start, 16, NODE_ALIGN as int);
    let (after, p) = spec_alloc(regions, layout);
    let freed = spec_dealloc(after, p->Some_0, layout);
    assert(freed[0] == Node { start: start as u64, size: size as u64 });
    assert(spec_align_up(start, align) == start);
    assert(is_first_fit(freed, size, align, 0));
    assert(first_fit(freed, size, align) == Some(0int));
    assert(freed.remove(0) =~= after);
}

/// A free region whose tail, after an aligned allocation, would be non-empty
/// but too small to hold a node is passed over: the request is served from
/// the rest of the list as if that region were not there, and the region
/// stays free, whole.
pub proof fn lemma_small_tail_skipped(regions: Seq<Node>, layout: Layout)
    requires
        regions.len() > 0,
        ({
            let (size, align) = spec_size_align(layout);
            let end = spec_align_up(regions[0].start as int, align) + size;
            end < regions[0].end() && regions[0].end() - end < NODE_SIZE
        }),
    ensures
        ({
            let (size, align) = spec_size_align(layout);
            &&& !fits(regions[0], size, align)
            &&& spec_alloc(regions, layout).1 == spec_alloc(regions.drop_first(), layout).1
            &&& spec_alloc(regions, layout).0.contains(regions[0])
        }),
{
    let (size, align) = spec_size_align(layout);
    let tail = regions.drop_first();
    assert(!fits(regions[0], size, align));
    assert forall|k: int| #[trigger] is_first_fit(tail, size, align, k) <==> is_first_fit(
        regions,
        size,
        align,
        k + 1,
    ) by {
        if is_first_fit(tail, size, align, k) {
            assert forall|j: int| 0 <= j < k + 1 implies !fits(#[trigger] regions[j], size, align) by {
                if j > 0 {
                    assert(regions[j] == tail[j - 1]);
                }
            }
        }
        if is_first_fit(regions, size, align, k + 1) {
            assert forall|j: int| 0 <= j < k implies !fits(#[trigger] tail[j], size, align) by {
                assert(regions[j + 1] == tail[j]);
            }
        }
    }
    match first_fit(regions, size, align) {
        Some(i) => {
            assert(is_first_fit(regions, size, align, i));
            assert(i != 0);
            assert(is_first_fit(tail, size, align, i - 1));
            let k = choose|k: int| is_first_fit(tail, size, align, k);
            assert(is_first_fit(regions, size, align, k + 1));
            assert(k == i - 1) by {
                if k + 1 < i {
                    assert(!fits(regions[k + 1], size, align));
                }
                if k + 1 > i {
                    assert(!fits(regions[i], size, align));
                }
            }
            assert(first_fit(tail, size, align) == Some(i - 1));
            assert(regions.remove(i)[0] == regions[0]);
            let after = spec_alloc(regions, layout).0;
            if after.len() == regions.remove(i).len() {
                assert(after[0] == regions[0]);
            } else {
                assert(after[1] == regions[0]);
            }
        },
        None => {
            assert forall|k: int| !is_first_fit(tail, size, align, k) by {
                if is_first_fit(tail, size, align, k) {
                    assert(is_first_fit(regions, size, align, k + 1));
                }
            }
            assert(spec_alloc(regions, layout).0[0] == regions[0]);
        },
    }
}

/// Facts on the size and alignment reserved for a valid layout.
proof fn lemma_size_align(layout: Layout)
    requires
        layout.wf(),
    ensures
        spec_size_align(layout).1 % 16 == 0,
        spec_size_align(layout).1 >= 16,
        spec_size_align(layout).0 % 16 == 0,
        spec_size_align(layout).0 >= NODE_SIZE,
        spec_size_align(layout).0 <= u64::MAX,
{
    let (size, align) = spec_size_align(layout);
    if layout.align >= NODE_SIZE {
        lemma_pow2_multiple_of_16(layout.align as int);
    }
    lemma_align_up(layout.size as int, align);
    let padded = spec_align_up(layout.size as int, align);
    lemma_mod_transitive(padded, align, 16);
}

/// A power of two of at least 16 is a multiple of 16.
proof fn lemma_pow2_multiple_of_16(n: int)
    requires
        super::is_pow2(n),
        n >= 16,
    ensures
        n % 16 == 0,
{
    reveal_with_fuel(super::is_pow2, 2);
    lemma_pow2_multiple_of_8(n / 2);
    let h = n / 2;
    assert(n == 2 * h);
    let k = h / 8;
    assert(h == 8 * k);
    assert(n == 16 * k);
    vstd::arithmetic::div_mod::lemma_mod_multiples_basic(k, 16);
}

/// A multiple of a multiple of `m` is a multiple of `m`.
proof fn lemma_mod_transitive(x: int, a: int, m: int)
    requires
        x >= 0,
        a > 0,
        m > 0,
        x % a == 0,
        a % m == 0,
    ensures
        x % m == 0,
{
    vstd::arithmetic::div_mod::lemma_fundamental_div_mod(x, a);
    vstd::arithmetic::div_mod::lemma_fundamental_div_mod(a, m);
    let k = x / a;
    let j = a / m;
    assert(x == m * (j * k)) by (nonlinear_arith)
        requires x == a * k, a == m * j;
    vstd::arithmetic::div_mod::lemma_mod_multiples_basic(j * k, m);
    assert((m * (j * k)) % m == 0) by (nonlinear_arith)
        requires ((j * k) * m) % m == 0;
}

/// Adding a multiple of `m` to a multiple of `m` gives a multiple of `m`.
proof fn lemma_mod_sum(a: int, b: int, m: int)
    requires
        m > 0,
        a % m == 0,
        b % m == 0,
    ensures
        (a + b) % m == 0,
{
    vstd::arithmetic::div_mod::lemma_add_mod_noop(a, b, m);
    vstd::arithmetic::div_mod::lemma_small_mod(0, m as nat);
}

} // verus!
