//! Physical frames: a one-way allocator over the usable regions of the
//! memory map that the firmware reported.
use vstd::prelude::*;

use crate::allocator::PAGE_SIZE;

verus! {

/// Physical addresses have at most 52 bits.
pub const PHYS_ADDR_LIMIT: u64 = 0x10_0000_0000_0000;

/// Virtual addresses of the lower half stay below 2^47.
pub const VIRT_ADDR_LIMIT: u64 = 0x8000_0000_0000;

/// What a region of physical memory holds.
#[derive(Clone, Copy, Debug, PartialEq, Eq, Structural)]
pub enum MemoryRegionKind {
    /// Free memory that the kernel may use.
    Usable,
    /// Memory that the boot loader set up: the kernel and its boot data.
    Bootloader,
    /// A region of a type that the UEFI firmware reported.
    UnknownUefi(u32),
    /// A region of a type that the BIOS reported.
    UnknownBios(u32),
}

/// A region `[start, end)` of physical memory.
#[derive(Clone, Copy, Debug, PartialEq, Eq, Structural)]
pub struct MemoryRegion {
    pub start: u64,
    pub end: u64,
    pub kind: MemoryRegionKind,
}

/// A 4 KiB frame of physical memory, by its start address.
#[derive(Clone, Copy, Debug, PartialEq, Eq, Structural)]
pub struct Frame {
    pub start_address: u64,
}

/// The start of the 4 KiB unit holding `addr`.
pub open spec fn align_down_4k(addr: int) -> int {
    addr - addr % (PAGE_SIZE as int)
}

/// The number of addresses `start, start + 4096, ...` below `end`.
pub open spec fn step_count(start: int, end: int) -> int {
    if end <= start {
        0
    } else {
        (end - start + PAGE_SIZE - 1) / (PAGE_SIZE as int)
    }
}

/// The frames of one region: for a usable region, the frames holding
/// `start, start + 4096, ...` up to its end; none for any other.
pub open spec fn region_frames(r: MemoryRegion) -> Seq<u64> {
    if r.kind == MemoryRegionKind::Usable {
        Seq::new(
            step_count(r.start as int, r.end as int) as nat,
            |k: int| align_down_4k(r.start + PAGE_SIZE * k) as u64,
        )
    } else {
        Seq::empty()
    }
}

/// The frames of a memory map, region after region.
pub open spec fn usable_frames(map: Seq<MemoryRegion>) -> Seq<u64>
    decreases map.len(),
{
    if map.len() == 0 {
        Seq::empty()
    } else {
        usable_frames(map.drop_last()) + region_frames(map.last())
    }
}

/// Every usable region lies below the physical address limit.
pub open spec fn map_wf(map: Seq<MemoryRegion>) -> bool {
    forall|i: int|
        0 <= i < map.len() && (#[trigger] map[i]).kind == MemoryRegionKind::Usable ==> map[i].end
            <= PHYS_ADDR_LIMIT
}

/// Relies on x86_64's `PhysFrame::containing_address`: the 4 KiB frame that
/// holds a physical address starts at that address rounded down to 4096.
/// `PhysAddr::new` panics at 2^52 and above.
#[verifier::external_body]
fn frame_containing(addr: u64) -> (r: u64)
    requires
        addr < PHYS_ADDR_LIMIT,
    ensures
        r == align_down_4k(addr as int),
{
    x86_64::structures::paging::PhysFrame::<x86_64::structures::paging::Size4KiB>::containing_address(
        x86_64::PhysAddr::new(addr),
    ).start_address().as_u64()
}

/// Relies on x86_64's `Page::containing_address`: the 4 KiB page that holds
/// a virtual address starts at that address rounded down to 4096.
/// `VirtAddr::new` panics on addresses that are not canonical.
#[verifier::external_body]
pub(crate) fn page_containing(addr: u64) -> (r: u64)
    requires
        addr < VIRT_ADDR_LIMIT,
    ensures
        r == align_down_4k(addr as int),
{
    x86_64::structures::paging::Page::<x86_64::structures::paging::Size4KiB>::containing_address(
        x86_64::VirtAddr::new(addr),
    ).start_address().as_u64()
}

/// Hands out the usable frames of a memory map one after another; frames
/// are never given back.
pub struct BootInfoFrameAllocator {
    memory_map: Vec<MemoryRegion>,
    next: u64,
}

impl BootInfoFrameAllocator {
    /// The memory map the frames come from.
    pub closed spec fn map(&self) -> Seq<MemoryRegion> {
        self.memory_map@
    }

    /// How many frames were handed out.
    pub closed spec fn handed_out(&self) -> nat {
        self.next as nat
    }

    pub closed spec fn wf(&self) -> bool {
        &&& map_wf(self.memory_map@)
        &&& self.next <= usable_frames(self.memory_map@).len()
        &&& usable_frames(self.memory_map@).len() < u64::MAX
    }

    /// An allocator over the usable regions of `map`, none handed out yet.
    pub fn init(map: Vec<MemoryRegion>) -> (r: BootInfoFrameAllocator)
        requires
            map_wf(map@),
            usable_frames(map@).len() < u64::MAX,
        ensures
            r.wf(),
            r.map() == map@,
            r.handed_out() == 0,
    {
        BootInfoFrameAllocator { memory_map: map, next: 0 }
    }

    /// The usable frame with index `n` in the order of the map.
    fn usable_frame(&self, n: u64) -> (r: Option<Frame>)
        requires
            map_wf(self.memory_map@),
        ensures
            match r {
                Some(f) => n < usable_frames(self.map()).len() && f.start_address
                    == usable_frames(self.map())[n as int],
                None => n >= usable_frames(self.map()).len(),
            },
    {
        let ghost map = self.memory_map@;
        let mut skipped: u64 = 0;
        let mut j: usize = 0;
        while j < self.memory_map.len()
            invariant
                map == self.memory_map@,
                map_wf(map),
                j <= map.len(),
                skipped == usable_frames(map.take(j as int)).len(),
                skipped <= n,
            decreases map.len() - j,
        {
            let region = self.memory_map[j];
            proof {
                assert(map.take(j + 1).drop_last() =~= map.take(j as int));
                assert(map.take(j + 1).last() == region);
            }
            if region.kind == MemoryRegionKind::Usable && region.end > region.start {
                let span = region.end - region.start;
                let count = span / PAGE_SIZE + if span % PAGE_SIZE != 0 {
                    1u64
                } else {
                    0u64
                };
                proof {
                    lemma_step_count(region.start as int, region.end as int);
                }
                if n - skipped < count {
                    let k = n - skipped;
                    proof {
                        lemma_step_bound(region.start as int, region.end as int, k as int);
                        lemma_frames_prefix(map, j + 1);
                    }
                    let addr = region.start + PAGE_SIZE * k;
                    let frame = frame_containing(addr);
                    proof {
                        let a = usable_frames(map.take(j as int));
                        let b = usable_frames(map.take(j + 1));
                        assert(b == a + region_frames(region));
                        assert(b[n as int] == region_frames(region)[k as int]);
                    }
                    return Some(Frame { start_address: frame });
                }
                skipped = skipped + count;
            }
            j = j + 1;
        }
        proof {
            assert(map.take(map.len() as int) =~= map);
        }
        None
    }

    /// The next usable frame, or `None` once every usable frame was handed
    /// out.
    pub fn allocate_frame(&mut self) -> (r: Option<Frame>)
        requires
            old(self).wf(),
        ensures
            final(self).wf(),
            final(self).map() == old(self).map(),
            match r {
                Some(f) => {
                    &&& old(self).handed_out() < usable_frames(old(self).map()).len()
                    &&& f.start_address == usable_frames(old(self).map())[old(self).handed_out() as int]
                    &&& final(self).handed_out() == old(self).handed_out() + 1
                },
                None => {
                    &&& old(self).handed_out() == usable_frames(old(self).map()).len()
                    &&& final(self).handed_out() == old(self).handed_out()
                },
            },
    {
        let frame = self.usable_frame(self.next);
        if frame.is_some() {
            self.next = self.next + 1;
        }
        frame
    }
}

/// The usable regions of the map follow one another without overlap, and
/// start on a frame boundary.
pub open spec fn map_ordered(map: Seq<MemoryRegion>) -> bool {
    &&& forall|i: int, j: int|
        0 <= i < j < map.len() && map[i].kind == MemoryRegionKind::Usable && map[j].kind
            == MemoryRegionKind::Usable ==> #[trigger] map[i].end <= #[trigger] map[j].start
    &&& forall|i: int|
        0 <= i < map.len() && (#[trigger] map[i]).kind == MemoryRegionKind::Usable ==> map[i].start
            % PAGE_SIZE == 0
}

/// On a map whose usable regions are ordered and frame-aligned, the frames
/// come out strictly increasing, so every frame is handed out once, in
/// address order; and each frame lies inside a usable region.
pub proof fn lemma_frames_increasing(map: Seq<MemoryRegion>)
    requires
        map_ordered(map),
    ensures
        forall|i: int, j: int|
            0 <= i < j < usable_frames(map).len() ==> #[trigger] usable_frames(map)[i]
                < #[trigger] usable_frames(map)[j],
        forall|k: int|
            0 <= k < usable_frames(map).len() ==> exists|j: int|
                {
                    &&& 0 <= j < map.len()
                    &&& map[j].kind == MemoryRegionKind::Usable
                    &&& map[j].start <= #[trigger] usable_frames(map)[k] < map[j].end
                },
    decreases map.len(),
{
    if map.len() > 0 {
        let init = map.drop_last();
        let last = map.last();
        assert(map_ordered(init)) by {
            assert forall|i: int, j: int|
                0 <= i < j < init.len() && init[i].kind == MemoryRegionKind::Usable && init[j].kind
                    == MemoryRegionKind::Usable implies #[trigger] init[i].end
                <= #[trigger] init[j].start by {
                assert(init[i] == map[i] && init[j] == map[j]);
            }
            assert forall|i: int|
                0 <= i < init.len() && (#[trigger] init[i]).kind
                    == MemoryRegionKind::Usable implies init[i].start % PAGE_SIZE == 0 by {
                assert(init[i] == map[i]);
            }
        }
        lemma_frames_increasing(init);
        let a = usable_frames(init);
        let b = region_frames(last);
        assert(usable_frames(map) == a + b);
        assert(last == map[map.len() - 1]);
        if last.kind == MemoryRegionKind::Usable {
            assert forall|i: int|
                0 <= i < init.len() && (#[trigger] init[i]).kind
                    == MemoryRegionKind::Usable implies init[i].end <= last.start by {
                assert(init[i] == map[i]);
                assert(map[i].end <= map[map.len() - 1].start);
            }
            lemma_frames_below(init, last.start as int);
            assert forall|k: int| 0 <= k < b.len() implies #[trigger] b[k] < last.end by {
                lemma_aligned_step(last.start as int, k);
                lemma_step_bound(last.start as int, last.end as int, k);
            }
            assert forall|k: int| 0 <= k < b.len() implies #[trigger] b[k] == last.start + PAGE_SIZE * k
                && b[k] >= last.start by {
                lemma_aligned_step(last.start as int, k);
            }
            assert forall|i: int, j: int| 0 <= i < j < b.len() implies #[trigger] b[i] < #[trigger] b[j] by {
                assert(PAGE_SIZE * i < PAGE_SIZE * j) by (nonlinear_arith)
                    requires i < j;
            }
        }
        assert forall|i: int, j: int|
            0 <= i < j < usable_frames(map).len() implies #[trigger] usable_frames(map)[i]
                < #[trigger] usable_frames(map)[j] by {
            if j < a.len() {
            } else if i < a.len() {
                assert(a[i] < last.start);
                assert(b[j - a.len()] >= last.start);
            } else {
                assert(b[i - a.len()] < b[j - a.len()]);
            }
        }
        assert forall|k: int| 0 <= k < usable_frames(map).len() implies exists|j: int|
            {
                &&& 0 <= j < map.len()
                &&& map[j].kind == MemoryRegionKind::Usable
                &&& map[j].start <= #[trigger] usable_frames(map)[k] < map[j].end
            } by {
            if k < a.len() {
                assert(usable_frames(map)[k] == a[k]);
                let j = choose|j: int|
                    {
                        &&& 0 <= j < init.len()
                        &&& init[j].kind == MemoryRegionKind::Usable
                        &&& init[j].start <= #[trigger] a[k] < init[j].end
                    };
                assert(map[j] == init[j]);
            } else {
                assert(usable_frames(map)[k] == b[k - a.len()]);
                lemma_aligned_step(last.start as int, k - a.len());
                assert(map[map.len() - 1] == last);
            }
        }
    }
}

/// The frames of usable regions that all end at or below `bound` lie below
/// it.
proof fn lemma_frames_below(map: Seq<MemoryRegion>, bound: int)
    requires
        forall|i: int|
            0 <= i < map.len() && (#[trigger] map[i]).kind == MemoryRegionKind::Usable ==> map[i].end
                <= bound,
        forall|i: int|
            0 <= i < map.len() && (#[trigger] map[i]).kind == MemoryRegionKind::Usable ==> map[i].start
                % PAGE_SIZE == 0,
    ensures
        forall|i: int| 0 <= i < usable_frames(map).len() ==> #[trigger] usable_frames(map)[i] < bound,
    decreases map.len(),
{
    if map.len() > 0 {
        let init = map.drop_last();
        let last = map.last();
        assert forall|i: int|
            0 <= i < init.len() && (#[trigger] init[i]).kind
                == MemoryRegionKind::Usable implies init[i].end <= bound by {
            assert(init[i] == map[i]);
        }
        assert forall|i: int|
            0 <= i < init.len() && (#[trigger] init[i]).kind
                == MemoryRegionKind::Usable implies init[i].start % PAGE_SIZE == 0 by {
            assert(init[i] == map[i]);
        }
        lemma_frames_below(init, bound);
        let a = usable_frames(init);
        let b = region_frames(last);
        assert(usable_frames(map) == a + b);
        assert(last == map[map.len() - 1]);
        assert forall|k: int| 0 <= k < b.len() implies #[trigger] b[k] < bound by {
            lemma_aligned_step(last.start as int, k);
            lemma_step_bound(last.start as int, last.end as int, k);
        }
        assert forall|i: int| 0 <= i < usable_frames(map).len() implies #[trigger] usable_frames(
            map,
        )[i] < bound by {
            if i >= a.len() {
                assert(usable_frames(map)[i] == b[i - a.len()]);
            }
        }
    }
}

/// Steps of a page from a page boundary stay on page boundaries.
proof fn lemma_aligned_step(start: int, k: int)
    requires
        start >= 0,
        start % (PAGE_SIZE as int) == 0,
        k >= 0,
    ensures
        align_down_4k(start + PAGE_SIZE * k) == start + PAGE_SIZE * k,
{
    vstd::arithmetic::div_mod::lemma_mod_multiples_basic(k, 4096);
    assert((PAGE_SIZE * k) % 4096 == 0) by (nonlinear_arith)
        requires (k * 4096) % 4096 == 0;
    vstd::arithmetic::div_mod::lemma_add_mod_noop(start, PAGE_SIZE * k, 4096);
    vstd::arithmetic::div_mod::lemma_small_mod(0, 4096);
}

/// The frame count of a region as computed with integer steps.
proof fn lemma_step_count(start: int, end: int)
    requires
        0 <= start < end,
    ensures
        step_count(start, end) == (end - start) / (PAGE_SIZE as int) + if (end - start) % (
        PAGE_SIZE as int) != 0 {
            1int
        } else {
            0int
        },
{
    let s = end - start;
    vstd::arithmetic::div_mod::lemma_fundamental_div_mod(s, 4096);
    vstd::arithmetic::div_mod::lemma_fundamental_div_mod(s + 4095, 4096);
    let q = s / 4096;
    let r = s % 4096;
    if r == 0 {
        vstd::arithmetic::div_mod::lemma_fundamental_div_mod_converse(s + 4095, 4096, q, 4095);
    } else {
        vstd::arithmetic::div_mod::lemma_fundamental_div_mod_converse(s + 4095, 4096, q + 1, r - 1);
    }
}

/// The k-th step of a region stays inside it.
proof fn lemma_step_bound(start: int, end: int, k: int)
    requires
        0 <= start < end,
        0 <= k < step_count(start, end),
    ensures
        start + PAGE_SIZE * k < end,
{
    let s = end - start;
    vstd::arithmetic::div_mod::lemma_fundamental_div_mod(s + 4095, 4096);
    assert(4096 * k <= 4096 * (step_count(start, end) - 1)) by (nonlinear_arith)
        requires k <= step_count(start, end) - 1;
}

/// The frames of the first `j` regions are the first frames of the map.
proof fn lemma_frames_prefix(map: Seq<MemoryRegion>, j: int)
    requires
        0 <= j <= map.len(),
    ensures
        usable_frames(map.take(j)).len() <= usable_frames(map).len(),
        forall|i: int|
            0 <= i < usable_frames(map.take(j)).len() ==> #[trigger] usable_frames(map.take(j))[i]
                == usable_frames(map)[i],
    decreases map.len() - j,
{
    if j < map.len() {
        lemma_frames_prefix(map, j + 1);
        assert(map.take(j + 1).drop_last() =~= map.take(j));
        let a = usable_frames(map.take(j));
        let b = usable_frames(map.take(j + 1));
        assert(b == a + region_frames(map.take(j + 1).last()));
        assert forall|i: int| 0 <= i < a.len() implies #[trigger] a[i] == usable_frames(map)[i] by {
            assert(a[i] == b[i]);
        }
    } else {
        assert(map.take(j) =~= map);
    }
}

} // verus!
