//! Heap allocation. Two tiers work together:
//!
//! - a fixed-size tier, fast, serving requests of at most 2048 bytes from
//!   per-class free lists;
//! - a linked-list tier, slower, serving everything else and handing fresh
//!   blocks to the fixed-size tier.
//!
//! The allocators only keep the bookkeeping of addresses; the memory they
//! describe is mapped and touched by the caller.
use vstd::prelude::*;

pub mod fixed_size;
pub mod linked_list;

use crate::memory::{align_down_4k, page_containing, VIRT_ADDR_LIMIT};

verus! {

/// Virtual address where the kernel heap starts.
pub const HEAP_START: u64 = 0x4444_4444_0000;

/// Size of the kernel heap in bytes (100 KiB).
pub const HEAP_SIZE: u64 = 102400;

/// Size of a virtual page or physical frame.
pub const PAGE_SIZE: u64 = 4096;

/// Whether `n` is a power of two.
pub open spec fn is_pow2(n: int) -> bool
    decreases n,
{
    if n <= 0 {
        false
    } else if n == 1 {
        true
    } else {
        n % 2 == 0 && is_pow2(n / 2)
    }
}

/// A power of two of at least 8 is a multiple of 8.
pub proof fn lemma_pow2_multiple_of_8(n: int)
    requires
        is_pow2(n),
        n >= 8,
    ensures
        n % 8 == 0,
    decreases n,
{
    reveal_with_fuel(is_pow2, 4);
    if n / 2 >= 8 {
        lemma_pow2_multiple_of_8(n / 2);
    } else {
        assert(n / 2 == 4 || n / 2 == 5 || n / 2 == 6 || n / 2 == 7);
    }
}

/// Size and alignment of a memory request.
#[derive(Clone, Copy, Debug, PartialEq, Eq, Structural)]
pub struct Layout {
    pub size: u64,
    pub align: u64,
}

impl Layout {
    /// The alignment is a power of two and the size, rounded up to the
    /// alignment, stays within `i64::MAX`.
    pub open spec fn wf(&self) -> bool {
        &&& is_pow2(self.align as int)
        &&& self.size + self.align - 1 <= i64::MAX
    }

    /// The layout of `size` bytes aligned to `align`, or `None` where the
    /// pair is no valid layout.
    pub fn from_size_align(size: u64, align: u64) -> (r: Option<Layout>)
        ensures
            match r {
                Some(l) => l.wf() && l.size == size && l.align == align,
                None => !(Layout { size, align }).wf(),
            },
    {
        if align == 0 || !is_power_of_two(align) {
            return None;
        }
        if align - 1 > 0x7fff_ffff_ffff_ffff || size > 0x7fff_ffff_ffff_ffff - (align - 1) {
            return None;
        }
        Some(Layout { size, align })
    }
}

/// Tests whether `n` is a power of two.
pub fn is_power_of_two(n: u64) -> (r: bool)
    ensures
        r == is_pow2(n as int),
{
    let mut m: u64 = n;
    while m > 1 && m % 2 == 0
        invariant
            is_pow2(n as int) == is_pow2(m as int),
        decreases m,
    {
        m = m / 2;
    }
    m == 1
}

/// The start addresses of the pages that cover the `size` bytes at `start`,
/// lowest first.
pub fn heap_pages(start: u64, size: u64) -> (r: Vec<u64>)
    requires
        size > 0,
        start + size <= VIRT_ADDR_LIMIT,
    ensures
        r@.len() == (align_down_4k(start + size - 1) - align_down_4k(start as int)) / (
        PAGE_SIZE as int) + 1,
        forall|k: int| 0 <= k < r@.len() ==> #[trigger] r@[k] == align_down_4k(start as int) + PAGE_SIZE * k,
{
    let first = page_containing(start);
    let last = page_containing(start + size - 1);
    proof {
        lemma_align_down_4k(start as int);
        lemma_align_down_4k(start + size - 1);
        lemma_page_span(first as int, last as int);
    }
    let ghost count = (last - first) / (PAGE_SIZE as int) + 1;
    let mut pages: Vec<u64> = Vec::new();
    let mut page: u64 = first;
    while page <= last
        invariant
            first <= last < VIRT_ADDR_LIMIT,
            (last - first) % (PAGE_SIZE as int) == 0,
            count == (last - first) / (PAGE_SIZE as int) + 1,
            first <= page <= last + PAGE_SIZE,
            page == first + PAGE_SIZE * pages@.len(),
            pages@.len() <= count,
            page <= last ==> pages@.len() < count,
            forall|k: int| 0 <= k < pages@.len() ==> #[trigger] pages@[k] == first + PAGE_SIZE * k,
        decreases last + PAGE_SIZE - page,
    {
        pages.push(page);
        proof {
            lemma_page_step(first as int, last as int, pages@.len() as int);
        }
        page = page + PAGE_SIZE;
    }
    pages
}

/// Rounding down to a page boundary.
proof fn lemma_align_down_4k(addr: int)
    requires
        addr >= 0,
    ensures
        0 <= align_down_4k(addr) <= addr,
        align_down_4k(addr) % (PAGE_SIZE as int) == 0,
{
    lemma_align_up(addr, PAGE_SIZE as int);
    vstd::arithmetic::div_mod::lemma_fundamental_div_mod(addr, 4096);
    let q = addr / 4096;
    vstd::arithmetic::div_mod::lemma_mod_multiples_basic(q, 4096);
    assert(align_down_4k(addr) == q * 4096);
}

/// Two page boundaries are a whole number of pages apart.
proof fn lemma_page_span(first: int, last: int)
    requires
        0 <= first <= last,
        first % (PAGE_SIZE as int) == 0,
        last % (PAGE_SIZE as int) == 0,
    ensures
        (last - first) % (PAGE_SIZE as int) == 0,
{
    vstd::arithmetic::div_mod::lemma_sub_mod_noop(last, first, 4096);
    vstd::arithmetic::div_mod::lemma_small_mod(0, 4096);
}

/// Whether the page after the `n`-th one is still within the span.
proof fn lemma_page_step(first: int, last: int, n: int)
    requires
        0 <= first <= last,
        (last - first) % (PAGE_SIZE as int) == 0,
        1 <= n <= (last - first) / (PAGE_SIZE as int) + 1,
    ensures
        first + PAGE_SIZE * n <= last ==> n < (last - first) / (PAGE_SIZE as int) + 1,
        first + PAGE_SIZE * n <= last + PAGE_SIZE,
{
    let c = (last - first) / (PAGE_SIZE as int);
    vstd::arithmetic::div_mod::lemma_fundamental_div_mod(last - first, 4096);
    assert(last - first == 4096 * c);
    if n == c + 1 {
        assert(PAGE_SIZE * n == 4096 * c + 4096) by (nonlinear_arith)
            requires n == c + 1;
    } else {
        assert(PAGE_SIZE * n <= 4096 * c) by (nonlinear_arith)
            requires n <= c;
    }
}

/// The least multiple of `align` that is at least `addr`.
pub open spec fn spec_align_up(addr: int, align: int) -> int {
    if addr % align == 0 {
        addr
    } else {
        addr - addr % align + align
    }
}

/// Aligns `addr` upwards to `align`, or `None` when the result does not fit
/// in a `u64`.
pub fn align_up(addr: u64, align: u64) -> (r: Option<u64>)
    requires
        align > 0,
    ensures
        match r {
            Some(a) => a == spec_align_up(addr as int, align as int),
            None => spec_align_up(addr as int, align as int) > u64::MAX,
        },
        spec_align_up(addr as int, align as int) >= addr,
        spec_align_up(addr as int, align as int) % (align as int) == 0,
        spec_align_up(addr as int, align as int) < addr + align,
{
    let remainder = addr % align;
    proof {
        lemma_align_up(addr as int, align as int);
    }
    if remainder == 0 {
        Some(addr)
    } else if addr - remainder <= u64::MAX - align {
        Some(addr - remainder + align)
    } else {
        None
    }
}

/// `spec_align_up` is the least multiple of `align` not below `addr`.
pub proof fn lemma_align_up(addr: int, align: int)
    requires
        addr >= 0,
        align > 0,
    ensures
        0 <= addr % align <= addr,
        spec_align_up(addr, align) >= addr,
        spec_align_up(addr, align) % align == 0,
        spec_align_up(addr, align) < addr + align,
        forall|m: int| m >= addr && #[trigger] (m % align) == 0 ==> m >= spec_align_up(addr, align),
{
    vstd::arithmetic::div_mod::lemma_fundamental_div_mod(addr, align);
    let q = addr / align;
    let r = addr % align;
    assert(0 <= r < align);
    assert(q >= 0) by {
        vstd::arithmetic::div_mod::lemma_div_pos_is_pos(addr, align);
    }
    assert(align * q >= 0) by (nonlinear_arith)
        requires align > 0, q >= 0;
    if r != 0 {
        assert((addr - r + align) == align * (q + 1)) by (nonlinear_arith)
            requires addr == align * q + r;
        vstd::arithmetic::div_mod::lemma_mod_multiples_basic(q + 1, align);
        assert((align * (q + 1)) % align == 0) by (nonlinear_arith)
            requires ((q + 1) * align) % align == 0;
    }
    assert forall|m: int| m >= addr && #[trigger] (m % align) == 0 implies m >= spec_align_up(
        addr,
        align,
    ) by {
        if r != 0 {
            vstd::arithmetic::div_mod::lemma_fundamental_div_mod(m, align);
            let k = m / align;
            assert(m == align * k);
            if k <= q {
                assert(align * k <= align * q) by (nonlinear_arith)
                    requires k <= q, align > 0;
                assert(false);
            }
            assert(align * k >= align * (q + 1)) by (nonlinear_arith)
                requires k >= q + 1, align > 0;
        }
    }
}

} // verus!
