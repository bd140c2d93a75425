//! The allocator core: a small-object pool over a statically provided
//! region, tracked by a single 64-bit usage mask.
//!
//! The pool does not touch the backing memory itself; it only accounts for
//! it, so the region is represented by its starting address.  Callers
//! receive plain addresses and hand them back on deallocation.

use crate::bits::{
    count_units, first_fit, first_fit_from, fits, lemma_claim_release, lemma_count_or_disjoint,
    lemma_count_run, lemma_first_fit, lemma_first_fit_from, lemma_or_bit, lemma_run_mask_bit,
    lemma_xor_bit, run_free, run_mask, unit_used,
};
use vstd::prelude::*;

verus! {

/// Size in bytes of one unit of the small-object pool: the platform page size.
pub const UNIT_SIZE: usize = 4096;

/// Number of units in the small-object pool.
pub const TOTAL_UNITS: usize = 64;

/// Total capacity of the pool in bytes: `TOTAL_UNITS * UNIT_SIZE`.
pub const POOL_CAPACITY: usize = 262144;

/// The number of units needed to hold `size` bytes: `size / 4096`,
/// rounded up.
pub open spec fn spec_units(size: int) -> int {
    (size + 4095) / 4096
}

/// Allocates the units of a fixed externally provided region, in whole
/// units, first-fit.  `usage_mask` is a bitmask that is 1 where something
/// is allocated.
pub struct SmallAllocator {
    /// Address of the first byte of the backing region; 0 until the region
    /// has been installed.
    pub base: usize,
    /// Bit `63 - i` is 1 iff unit `i` is currently allocated.
    pub usage_mask: u64,
}

/// What deallocating an address told the pool.
#[derive(Clone, Copy, PartialEq, Eq, Structural, Debug)]
pub enum PoolDealloc {
    /// The address does not lie in the pool's region.
    NotMine,
    /// The region's units were all allocated and are now released.
    Freed,
    /// Some expected unit was not allocated: a double free or corrupted
    /// bookkeeping.  The caller must treat this as fatal.
    Corrupt,
}

impl SmallAllocator {
    /// The base address leaves room for the whole region without wrapping,
    /// and is page-aligned.
    pub open spec fn wf(self) -> bool {
        &&& self.base as int % 4096 == 0
        &&& self.base + POOL_CAPACITY <= usize::MAX
    }

    /// The backing region has been installed.
    pub open spec fn initialized(self) -> bool {
        self.base != 0
    }

    /// `addr` lies inside the pool's backing region.
    pub open spec fn in_pool(self, addr: usize) -> bool {
        self.base <= addr < self.base + POOL_CAPACITY
    }

    /// Round a size in bytes up to a whole number of units.
    pub fn to_pages(size: usize) -> (r: usize)
        requires
            size <= usize::MAX - 4095,
        ensures
            r == spec_units(size as int),
    {
        let remainder = size % UNIT_SIZE;
        let size = if remainder == 0 {
            size
        } else {
            size + UNIT_SIZE - remainder
        };
        size / UNIT_SIZE
    }

    /// Claim the first (lowest-addressed) free run of units large enough
    /// for `size` bytes and return its address; `None` if the request is
    /// invalid for the pool or no free run is long enough.
    pub fn allocate(&mut self, size: usize, align: usize) -> (r: Option<usize>)
        requires
            old(self).wf(),
            old(self).initialized(),
        ensures
            small_alloc_post(*old(self), *final(self), size, align, r),
    {
        if align > UNIT_SIZE || size == 0 || size > POOL_CAPACITY {
            return None;
        }
        let pages = Self::to_pages(size);
        assert(1 <= pages <= 64);

        let my_mask: u64 = u64::MAX << ((TOTAL_UNITS - pages) as u64);

        let mut i: usize = 0;
        while i <= TOTAL_UNITS - pages
            invariant
                self.base == old(self).base,
                self.usage_mask == old(self).usage_mask,
                old(self).wf(),
                1 <= pages <= 64,
                pages == spec_units(size as int),
                small_valid_request(size, align),
                my_mask == (u64::MAX << ((64 - pages) as u64)),
                i <= 65 - pages,
                first_fit(self.usage_mask, pages as u64) == first_fit_from(
                    self.usage_mask,
                    pages as u64,
                    i as u64,
                ),
            decreases 65 - pages - i,
        {
            if ((my_mask >> (i as u64)) & self.usage_mask) == 0 {
                assert(fits(self.usage_mask, i as u64, pages as u64));
                assert(first_fit_from(self.usage_mask, pages as u64, i as u64) == Some(i as u64));
                self.usage_mask = self.usage_mask | (my_mask >> (i as u64));
                return Some(self.base + UNIT_SIZE * i);
            }
            assert(!fits(self.usage_mask, i as u64, pages as u64));
            i = i + 1;
        }
        assert(first_fit_from(self.usage_mask, pages as u64, (65 - pages) as u64) is None);
        None
    }

    /// Release the units of a region previously returned by `allocate`.
    /// Addresses outside the region are reported as `NotMine`; a region
    /// whose expected units are not all allocated is reported as `Corrupt`
    /// and the mask is left unchanged.
    pub fn deallocate(&mut self, addr: usize, size: usize) -> (r: PoolDealloc)
        requires
            old(self).wf(),
            old(self).initialized(),
            old(self).in_pool(addr) ==> 1 <= size <= POOL_CAPACITY,
        ensures
            small_dealloc_post(*old(self), *final(self), addr, size, r),
    {
        if addr < self.base || addr - self.base >= POOL_CAPACITY {
            return PoolDealloc::NotMine;
        }
        let offset = addr - self.base;
        let offset_pages = offset / UNIT_SIZE;
        let pages = Self::to_pages(size);
        assert(1 <= pages <= 64);
        assert(offset_pages < 64);

        let my_mask = (u64::MAX << ((TOTAL_UNITS - pages) as u64)) >> (offset_pages as u64);
        assert(my_mask == run_mask(pages as u64, offset_pages as u64));

        if my_mask & self.usage_mask == my_mask {
            self.usage_mask = self.usage_mask ^ my_mask;
            PoolDealloc::Freed
        } else {
            PoolDealloc::Corrupt
        }
    }
}

/// The pool serves exactly the requests that need no more than unit
/// alignment and fit its capacity.
pub open spec fn small_valid_request(size: usize, align: usize) -> bool {
    &&& align <= 4096
    &&& 0 < size <= 262144
}

/// What `SmallAllocator::allocate` does: on a valid request it claims the
/// first-fit run for `size` and returns its address; otherwise, or when no
/// run fits, it returns `None` and changes nothing.
pub open spec fn small_alloc_post(
    pre: SmallAllocator,
    post: SmallAllocator,
    size: usize,
    align: usize,
    r: Option<usize>,
) -> bool {
    let p = spec_units(size as int) as u64;
    &&& post.base == pre.base
    &&& if small_valid_request(size, align) {
        match first_fit(pre.usage_mask, p) {
            Some(i) => {
                &&& r == Some((pre.base + 4096 * i) as usize)
                &&& post.usage_mask == pre.usage_mask | run_mask(p, i)
            },
            None => r is None && post.usage_mask == pre.usage_mask,
        }
    } else {
        r is None && post.usage_mask == pre.usage_mask
    }
}

/// What `SmallAllocator::deallocate` does: addresses outside the region are
/// `NotMine`; inside, the expected run derived from the address and size is
/// either fully allocated and released (`Freed`) or the call is a `Corrupt`
/// double free and nothing changes.
pub open spec fn small_dealloc_post(
    pre: SmallAllocator,
    post: SmallAllocator,
    addr: usize,
    size: usize,
    r: PoolDealloc,
) -> bool {
    let p = spec_units(size as int) as u64;
    let op = (((addr - pre.base) as int) / 4096) as u64;
    let c = run_mask(p, op);
    &&& post.base == pre.base
    &&& if !pre.in_pool(addr) {
        r == PoolDealloc::NotMine && post.usage_mask == pre.usage_mask
    } else if c & pre.usage_mask == c {
        r == PoolDealloc::Freed && post.usage_mask == pre.usage_mask ^ c
    } else {
        r == PoolDealloc::Corrupt && post.usage_mask == pre.usage_mask
    }
}

/// Zero-size and oversized requests fail without mutating the usage mask,
/// and so does any alignment beyond a unit.
pub proof fn lemma_degenerate_requests_fail(
    pre: SmallAllocator,
    post: SmallAllocator,
    size: usize,
    align: usize,
    r: Option<usize>,
)
    requires
        size == 0 || size > POOL_CAPACITY || align > 4096,
        small_alloc_post(pre, post, size, align, r),
    ensures
        r is None,
        post.usage_mask == pre.usage_mask,
{
}

/// First-fit determinism: the address a successful pool allocation returns
/// marks the lowest offset whose whole run of units is free; on failure no
/// offset has such a run.
pub proof fn lemma_pool_first_fit(
    pre: SmallAllocator,
    post: SmallAllocator,
    size: usize,
    align: usize,
    r: Option<usize>,
)
    requires
        pre.wf(),
        small_valid_request(size, align),
        small_alloc_post(pre, post, size, align, r),
    ensures
        ({
            let p = spec_units(size as int) as u64;
            match r {
                Some(addr) => {
                    let i = ((addr - pre.base) as int / 4096) as u64;
                    &&& i + p <= 64
                    &&& addr == pre.base + 4096 * i
                    &&& run_free(pre.usage_mask, i, p)
                    &&& forall|i2: u64|
                        i2 < i && i2 + p <= 64 ==> !#[trigger] run_free(pre.usage_mask, i2, p)
                },
                None => forall|i2: u64|
                    i2 + p <= 64 ==> !#[trigger] run_free(pre.usage_mask, i2, p),
            }
        }),
{
    let p = spec_units(size as int) as u64;
    lemma_first_fit(pre.usage_mask, p);
    if let Some(addr) = r {
        let i = first_fit(pre.usage_mask, p)->Some_0;
        assert(addr == pre.base + 4096 * i);
        assert(((addr - pre.base) as int / 4096) as u64 == i);
    }
}

/// Double-free detection: after a pool region is released, releasing the
/// same address with the same size again is reported as `Corrupt`, and the
/// second call changes nothing.
pub proof fn lemma_double_free_detected(
    pre: SmallAllocator,
    mid: SmallAllocator,
    post: SmallAllocator,
    addr: usize,
    size: usize,
    r2: PoolDealloc,
)
    requires
        pre.wf(),
        pre.in_pool(addr),
        1 <= size <= POOL_CAPACITY,
        small_dealloc_post(pre, mid, addr, size, PoolDealloc::Freed),
        small_dealloc_post(mid, post, addr, size, r2),
    ensures
        r2 == PoolDealloc::Corrupt,
        post.usage_mask == mid.usage_mask,
{
    let p = spec_units(size as int) as u64;
    let op = (((addr - pre.base) as int) / 4096) as u64;
    let c = run_mask(p, op);
    let m = pre.usage_mask;
    assert(1 <= p <= 64);
    assert(op < 64);
    assert((1 <= p <= 64 && op < 64) ==> run_mask(p, op) != 0) by (bit_vector);
    assert((c & m == c && c != 0) ==> c & (m ^ c) != c) by (bit_vector);
}

/// A `Freed` deallocation clears exactly the expected units — those the
/// address and size span — and touches no other.
pub proof fn lemma_dealloc_clears_units(
    pre: SmallAllocator,
    post: SmallAllocator,
    addr: usize,
    size: usize,
)
    requires
        pre.in_pool(addr),
        small_dealloc_post(pre, post, addr, size, PoolDealloc::Freed),
    ensures
        ({
            let p = spec_units(size as int) as u64;
            let op = (((addr - pre.base) as int) / 4096) as u64;
            forall|j: u64|
                j < 64 ==> #[trigger] unit_used(post.usage_mask, j) == (unit_used(
                    pre.usage_mask,
                    j,
                ) && !unit_used(run_mask(p, op), j))
        }),
{
    let p = spec_units(size as int) as u64;
    let op = (((addr - pre.base) as int) / 4096) as u64;
    let c = run_mask(p, op);
    assert forall|j: u64| j < 64 implies #[trigger] unit_used(post.usage_mask, j) == (unit_used(
        pre.usage_mask,
        j,
    ) && !unit_used(c, j)) by {
        lemma_xor_bit(pre.usage_mask, c, j);
    }
}

/// Mask/units consistency: allocating `size` bytes from the pool claims
/// exactly `ceil(size / 4096)` fresh units — the run starting at the
/// returned address, nothing else — and deallocating the returned address
/// with the same size is accepted and restores the previous mask.
pub proof fn lemma_pool_roundtrip(
    pre: SmallAllocator,
    mid: SmallAllocator,
    post: SmallAllocator,
    size: usize,
    align: usize,
    addr: usize,
    r: PoolDealloc,
)
    requires
        pre.wf(),
        pre.initialized(),
        small_valid_request(size, align),
        small_alloc_post(pre, mid, size, align, Some(addr)),
        small_dealloc_post(mid, post, addr, size, r),
    ensures
        r == PoolDealloc::Freed,
        count_units(mid.usage_mask) == count_units(pre.usage_mask) + spec_units(size as int),
        post.usage_mask == pre.usage_mask,
        ({
            let p = spec_units(size as int) as u64;
            let i = first_fit(pre.usage_mask, p)->Some_0;
            forall|j: u64|
                j < 64 ==> #[trigger] unit_used(mid.usage_mask, j) == (unit_used(pre.usage_mask, j)
                    || (i <= j < i + p))
        }),
{
    let p = spec_units(size as int) as u64;
    let i = first_fit(pre.usage_mask, p)->Some_0;
    lemma_first_fit_from(pre.usage_mask, p, 0);
    assert(fits(pre.usage_mask, i, p));
    let c = run_mask(p, i);
    let m = pre.usage_mask;
    assert(c & m == 0 ==> m & c == 0) by (bit_vector);

    // The deallocated address recovers the same offset and mask.
    assert(addr == pre.base + 4096 * i);
    assert(mid.in_pool(addr));
    assert((((addr - mid.base) as int) / 4096) as u64 == i);

    lemma_claim_release(pre.usage_mask, c);
    assert(c & mid.usage_mask == c);
    assert(post.usage_mask == mid.usage_mask ^ c);

    lemma_count_or_disjoint(pre.usage_mask, c);
    lemma_count_run(p, i);

    assert forall|j: u64| j < 64 implies #[trigger] unit_used(mid.usage_mask, j) == (unit_used(
        pre.usage_mask,
        j,
    ) || (i <= j < i + p)) by {
        lemma_or_bit(pre.usage_mask, c, j);
        lemma_run_mask_bit(p, i, j);
    }
}

/// Every address the pool hands out satisfies the request's alignment: the
/// pool only accepts alignments that divide the unit size, and it returns
/// unit-aligned addresses of a unit-aligned region.
pub proof fn lemma_pool_result_aligned(
    pre: SmallAllocator,
    post: SmallAllocator,
    size: usize,
    align: usize,
    addr: usize,
)
    requires
        pre.wf(),
        1 <= align,
        4096 as int % align as int == 0,
        small_alloc_post(pre, post, size, align, Some(addr)),
    ensures
        addr as int % align as int == 0,
{
    let p = spec_units(size as int) as u64;
    let i = first_fit(pre.usage_mask, p)->Some_0;
    lemma_first_fit_from(pre.usage_mask, p, 0);
    assert(addr == pre.base + 4096 * i);

    let a = align as int;
    let b = pre.base as int;
    let k = (4096int / a) * (b / 4096int) + (4096int / a) * i;
    vstd::arithmetic::div_mod::lemma_fundamental_div_mod(b, 4096int);
    vstd::arithmetic::div_mod::lemma_fundamental_div_mod(4096int, a);
    assert(addr as int == a * k) by (nonlinear_arith)
        requires
            b == 4096 * (b / 4096),
            4096int == a * (4096int / a),
            addr == b + 4096 * i,
            k == (4096int / a) * (b / 4096int) + (4096int / a) * i,
    ;
    assert((a * k) % a == 0) by (nonlinear_arith)
        requires
            a >= 1,
    ;
}

/// Round a size in bytes up to a whole number of pages.
pub fn round_to_page(size: usize) -> (r: usize)
    requires
        size <= usize::MAX - 4095,
    ensures
        r == 4096 * spec_units(size as int),
{
    let remainder = size % UNIT_SIZE;
    if remainder == 0 {
        size
    } else {
        size + UNIT_SIZE - remainder
    }
}

/// One page-cache slot: a kernel mapping obtained earlier and not yet
/// released (`addr != 0`), or a slot never used (`addr == 0`).  While
/// `in_use` is set the region is handed out and must not be reused.
#[derive(Clone, Copy, PartialEq, Eq, Structural, Debug)]
pub struct CacheEntry {
    pub in_use: bool,
    pub addr: usize,
    pub len: usize,
}

/// The pool and the page cache behind one interface: every allocation asks
/// the pool first and falls back to cached or fresh kernel mappings.
pub struct AllocatorImpl {
    pub small: SmallAllocator,
    pub cache: Vec<CacheEntry>,
}

/// What a call to `AllocatorImpl::allocate` decided.
#[derive(Clone, Copy, PartialEq, Eq, Structural, Debug)]
pub enum AllocStep {
    /// The request is satisfied at this address.
    Done(usize),
    /// Cache slot `slot` (now marked in use) must be grown: remap its
    /// mapping from `old_len` to `new_len` bytes, moving it if need be, and
    /// hand the outcome to `finish_grow`.
    Grow { slot: usize, old_addr: usize, old_len: usize, new_len: usize },
    /// Nothing cached can serve the request: a fresh anonymous read-write
    /// private mapping of `len` bytes must be obtained from the kernel and
    /// returned to the caller unrecorded.
    Fresh { len: usize },
}

/// What a call to `AllocatorImpl::deallocate` decided.
#[derive(Clone, Copy, PartialEq, Eq, Structural, Debug)]
pub enum DeallocStep {
    /// The region was taken back into the pool or the cache.
    Done,
    /// The cache is full: the region must be returned to the kernel.
    Unmap { addr: usize, len: usize },
    /// The pool's expected units were not all allocated: a double free.
    /// The caller must treat this as fatal.
    Corrupt,
}

/// What a call to `AllocatorImpl::reallocate` decided.
#[derive(Clone, Copy, PartialEq, Eq, Structural, Debug)]
pub enum ReallocStep {
    /// The region lives in the pool, which cannot grow in place: allocate
    /// `new_size` bytes afresh, copy the smaller of the old and new sizes,
    /// then deallocate the old region.
    CopyToNew { new_size: usize, align: usize },
    /// The rounded new size does not exceed the rounded old one: keep the
    /// region as it is.
    Keep { addr: usize },
    /// The region is recorded in cache slot `slot`: remap it from `old_len`
    /// to `new_len` bytes and hand the outcome to `finish_realloc_grow`.
    Grow { slot: usize, old_addr: usize, old_len: usize, new_len: usize },
    /// The region is not recorded: remap it directly and return the outcome
    /// to the caller.
    GrowFresh { old_addr: usize, old_len: usize, new_len: usize },
}

/// Slot `s` is reusable as it stands for a request of `need` bytes.
pub open spec fn slot_fits(c: Seq<CacheEntry>, s: int, need: usize) -> bool {
    &&& 0 <= s < c.len()
    &&& !c[s].in_use
    &&& c[s].len >= need
}

/// Slot `s` is the one closest-fit reuse picks for `need` bytes: the first
/// of the reusable slots with the least length (the least waste).
pub open spec fn is_closest_fit(c: Seq<CacheEntry>, s: int, need: usize) -> bool {
    &&& slot_fits(c, s, need)
    &&& forall|t: int| #[trigger] slot_fits(c, t, need) ==> c[s].len <= c[t].len
    &&& forall|t: int| 0 <= t < s && #[trigger] slot_fits(c, t, need) ==> c[s].len < c[t].len
}

/// Slot `s` holds a mapping that is not handed out: a candidate for growth.
pub open spec fn slot_growable(c: Seq<CacheEntry>, s: int) -> bool {
    &&& 0 <= s < c.len()
    &&& !c[s].in_use
    &&& c[s].addr != 0
}

/// Slot `s` is the one largest-available growth picks: the last growable
/// slot of maximal length.
pub open spec fn is_largest_available(c: Seq<CacheEntry>, s: int) -> bool {
    &&& slot_growable(c, s)
    &&& forall|t: int| #[trigger] slot_growable(c, t) ==> c[t].len <= c[s].len
    &&& forall|t: int| s < t < c.len() && #[trigger] slot_growable(c, t) ==> c[t].len < c[s].len
}

/// Slot `s` is the first whose recorded address is `addr`.
pub open spec fn is_first_match(c: Seq<CacheEntry>, addr: usize, s: int) -> bool {
    &&& 0 <= s < c.len()
    &&& c[s].addr == addr
    &&& forall|t: int| 0 <= t < s ==> (#[trigger] c[t]).addr != addr
}

/// Slot `s` is the first never-used slot.
pub open spec fn is_first_free_slot(c: Seq<CacheEntry>, s: int) -> bool {
    &&& 0 <= s < c.len()
    &&& !c[s].in_use
    &&& c[s].addr == 0
    &&& forall|t: int| 0 <= t < s ==> ((#[trigger] c[t]).in_use || c[t].addr != 0)
}

/// At most one slot is the closest fit.
pub proof fn lemma_closest_fit_unique(c: Seq<CacheEntry>, need: usize, s1: int, s2: int)
    requires
        is_closest_fit(c, s1, need),
        is_closest_fit(c, s2, need),
    ensures
        s1 == s2,
{
    if s1 < s2 {
        assert(slot_fits(c, s1, need));
        assert(slot_fits(c, s2, need));
    } else if s2 < s1 {
        assert(slot_fits(c, s1, need));
        assert(slot_fits(c, s2, need));
    }
}

/// At most one slot is the largest available.
pub proof fn lemma_largest_available_unique(c: Seq<CacheEntry>, s1: int, s2: int)
    requires
        is_largest_available(c, s1),
        is_largest_available(c, s2),
    ensures
        s1 == s2,
{
    if s1 < s2 {
        assert(slot_growable(c, s1));
        assert(slot_growable(c, s2));
    } else if s2 < s1 {
        assert(slot_growable(c, s1));
        assert(slot_growable(c, s2));
    }
}

/// At most one slot is the first match for an address.
pub proof fn lemma_first_match_unique(c: Seq<CacheEntry>, addr: usize, s1: int, s2: int)
    requires
        is_first_match(c, addr, s1),
        is_first_match(c, addr, s2),
    ensures
        s1 == s2,
{
}

/// At most one slot is the first never-used slot.
pub proof fn lemma_first_free_slot_unique(c: Seq<CacheEntry>, s1: int, s2: int)
    requires
        is_first_free_slot(c, s1),
        is_first_free_slot(c, s2),
    ensures
        s1 == s2,
{
}

/// What `AllocatorImpl::allocate` does, step by step: serve from the pool
/// when it can; otherwise reuse the closest-fit cached mapping; otherwise
/// mark the largest available mapping for growth; otherwise ask for a fresh
/// mapping.  The chosen slot is pinned down exactly.
pub open spec fn alloc_post(
    pre: AllocatorImpl,
    post: AllocatorImpl,
    size: usize,
    align: usize,
    r: AllocStep,
) -> bool {
    let p = spec_units(size as int) as u64;
    let need = (4096 * spec_units(size as int)) as usize;
    let c = pre.cache@;
    if small_valid_request(size, align) && first_fit(pre.small.usage_mask, p) is Some {
        let i = first_fit(pre.small.usage_mask, p)->Some_0;
        &&& r == AllocStep::Done((pre.small.base + 4096 * i) as usize)
        &&& post.small.base == pre.small.base
        &&& post.small.usage_mask == pre.small.usage_mask | run_mask(p, i)
        &&& post.cache@ == c
    } else {
        &&& post.small == pre.small
        &&& if exists|s: int| is_closest_fit(c, s, need) {
            let s = choose|s: int| is_closest_fit(c, s, need);
            &&& r == AllocStep::Done(c[s].addr)
            &&& post.cache@ == c.update(
                s,
                CacheEntry { in_use: true, addr: c[s].addr, len: c[s].len },
            )
        } else if exists|s: int| is_largest_available(c, s) {
            let s = choose|s: int| is_largest_available(c, s);
            &&& r == (AllocStep::Grow {
                slot: s as usize,
                old_addr: c[s].addr,
                old_len: c[s].len,
                new_len: need,
            })
            &&& post.cache@ == c.update(
                s,
                CacheEntry { in_use: true, addr: c[s].addr, len: c[s].len },
            )
        } else {
            &&& r == (AllocStep::Fresh { len: need })
            &&& post.cache@ == c
        }
    }
}

impl AllocatorImpl {
    /// The pool is well formed, the cache has its 64 slots, and no two
    /// slots record the same mapping.
    pub open spec fn wf(self) -> bool {
        &&& self.small.wf()
        &&& self.cache@.len() == 64
        &&& forall|s: int, t: int|
            #![trigger self.cache@[s].addr, self.cache@[t].addr]
            0 <= s < 64 && 0 <= t < 64 && s != t && self.cache@[s].addr != 0
                ==> self.cache@[s].addr != self.cache@[t].addr
    }

    /// The pool's backing region has been installed.
    pub open spec fn initialized(self) -> bool {
        self.small.initialized()
    }

    /// Decide how to serve an allocation request of `size` bytes with the
    /// given alignment.  A `Done` step carries the address to hand out; the
    /// other steps name the one kernel call that is still needed.
    pub fn allocate(&mut self, size: usize, align: usize) -> (r: AllocStep)
        requires
            old(self).wf(),
            old(self).initialized(),
            1 <= size <= usize::MAX - 4095,
        ensures
            alloc_post(*old(self), *final(self), size, align, r),
            final(self).wf(),
            final(self).initialized(),
    {
        let small_ptr = self.small.allocate(size, align);
        if let Some(addr) = small_ptr {
            return AllocStep::Done(addr);
        }

        let need = round_to_page(size);
        let ghost c = self.cache@;

        // Find the closest fit.
        let mut best: usize = 64;
        let mut best_len: usize = 0;
        let mut t: usize = 0;
        while t < 64
            invariant
                self.small == old(self).small,
                self.cache@ == c,
                c.len() == 64,
                t <= 64,
                best <= 64,
                best == 64 ==> best_len == 0,
                best == 64 ==> forall|u: int| 0 <= u < t ==> !slot_fits(c, u, need),
                best < 64 ==> {
                    &&& (best as int) < t
                    &&& slot_fits(c, best as int, need)
                    &&& best_len == c[best as int].len
                    &&& forall|u: int| 0 <= u < t && #[trigger] slot_fits(c, u, need)
                        ==> best_len <= c[u].len
                    &&& forall|u: int| 0 <= u < best && #[trigger] slot_fits(c, u, need)
                        ==> best_len < c[u].len
                },
            decreases 64 - t,
        {
            let e = self.cache[t];
            if !e.in_use && e.len >= need {
                if best == 64 || e.len < best_len {
                    best = t;
                    best_len = e.len;
                }
            }
            t = t + 1;
        }
        if best < 64 {
            let e = self.cache[best];
            self.cache[best] = CacheEntry { in_use: true, addr: e.addr, len: e.len };
            proof {
                assert(is_closest_fit(c, best as int, need));
                let s = choose|s: int| is_closest_fit(c, s, need);
                lemma_closest_fit_unique(c, need, best as int, s);
            }
            return AllocStep::Done(e.addr);
        }
        assert(forall|s: int| !is_closest_fit(c, s, need));

        // No cached mapping is big enough: grow the largest one.
        let mut t: usize = 0;
        while t < 64
            invariant
                self.small == old(self).small,
                self.cache@ == c,
                c.len() == 64,
                t <= 64,
                best <= 64,
                best_len == (if best < 64 {
                    c[best as int].len
                } else {
                    0
                }),
                best == 64 || best < t,
                best == 64 ==> forall|u: int| 0 <= u < t ==> !slot_growable(c, u),
                best < 64 ==> {
                    &&& slot_growable(c, best as int)
                    &&& forall|u: int| 0 <= u < t && #[trigger] slot_growable(c, u)
                        ==> c[u].len <= c[best as int].len
                    &&& forall|u: int| best < u < t && #[trigger] slot_growable(c, u)
                        ==> c[u].len < c[best as int].len
                },
            decreases 64 - t,
        {
            let e = self.cache[t];
            if !e.in_use && e.addr != 0 {
                if best == 64 || e.len >= best_len {
                    best = t;
                    best_len = e.len;
                }
            }
            t = t + 1;
        }
        if best < 64 {
            let e = self.cache[best];
            self.cache[best] = CacheEntry { in_use: true, addr: e.addr, len: e.len };
            proof {
                assert(is_largest_available(c, best as int));
                let s = choose|s: int| is_largest_available(c, s);
                lemma_largest_available_unique(c, best as int, s);
            }
            return AllocStep::Grow { slot: best, old_addr: e.addr, old_len: e.len, new_len: need };
        }
        assert(forall|s: int| !is_largest_available(c, s));

        AllocStep::Fresh { len: need }
    }

    /// Record the outcome of the remap that an `AllocStep::Grow` asked for.
    /// On success the slot keeps the (possibly relocated) mapping at its new
    /// length.  On failure the mapping is intact where it was: the slot
    /// keeps it, at its old length, and returns to unused — it stays
    /// reusable and is released at teardown like every held mapping — while
    /// the caller receives the failure.
    pub fn finish_grow(&mut self, slot: usize, new_len: usize, result: Option<usize>) -> (r:
        Option<usize>)
        requires
            old(self).wf(),
            slot < 64,
            old(self).cache@[slot as int].in_use,
            result != Some(0usize),
            result matches Some(a) ==> forall|t: int|
                0 <= t < 64 && t != slot ==> (#[trigger] old(self).cache@[t]).addr != a,
        ensures
            grow_post(*old(self), *final(self), slot, new_len, result, r),
            final(self).wf(),
            final(self).initialized() == old(self).initialized(),
    {
        match result {
            Some(addr) => {
                self.cache[slot] = CacheEntry { in_use: true, addr, len: new_len };
                Some(addr)
            },
            None => {
                let e = self.cache[slot];
                self.cache[slot] = CacheEntry { in_use: false, addr: e.addr, len: e.len };
                None
            },
        }
    }

    /// Take back a region: pool regions are released to the pool; other
    /// regions are kept for reuse in the cache, recorded if new, or, when
    /// the cache is full, handed back to be unmapped.
    pub fn deallocate(&mut self, addr: usize, size: usize) -> (r: DeallocStep)
        requires
            old(self).wf(),
            old(self).initialized(),
            size <= usize::MAX - 4095,
            old(self).small.in_pool(addr) ==> 1 <= size <= POOL_CAPACITY,
        ensures
            dealloc_post(*old(self), *final(self), addr, size, r),
            final(self).wf(),
            final(self).initialized(),
    {
        match self.small.deallocate(addr, size) {
            PoolDealloc::Freed => {
                return DeallocStep::Done;
            },
            PoolDealloc::Corrupt => {
                return DeallocStep::Corrupt;
            },
            PoolDealloc::NotMine => {},
        }

        let need = round_to_page(size);
        let ghost c = self.cache@;

        // Look for this region in the cache and mark it as unused.
        let mut t: usize = 0;
        while t < 64
            invariant
                old(self).wf(),
                old(self).initialized(),
                !old(self).small.in_pool(addr),
                self.small == old(self).small,
                self.cache@ == c,
                c == old(self).cache@,
                c.len() == 64,
                t <= 64,
                forall|u: int| 0 <= u < t ==> (#[trigger] c[u]).addr != addr,
            decreases 64 - t,
        {
            let e = self.cache[t];
            if e.addr == addr {
                self.cache[t] = CacheEntry { in_use: false, addr: e.addr, len: e.len };
                proof {
                    assert(is_first_match(c, addr, t as int));
                    let s = choose|s: int| is_first_match(c, addr, s);
                    lemma_first_match_unique(c, addr, t as int, s);
                }
                return DeallocStep::Done;
            }
            t = t + 1;
        }
        assert(forall|s: int| !is_first_match(c, addr, s));

        // The region is new to the cache: record it in the first slot that
        // never held a mapping.
        let mut t: usize = 0;
        while t < 64
            invariant
                old(self).wf(),
                old(self).initialized(),
                !old(self).small.in_pool(addr),
                self.small == old(self).small,
                self.cache@ == c,
                c == old(self).cache@,
                c.len() == 64,
                t <= 64,
                need == 4096 * spec_units(size as int),
                forall|u: int| 0 <= u < t ==> ((#[trigger] c[u]).in_use || c[u].addr != 0),
                forall|u: int| 0 <= u < 64 ==> (#[trigger] c[u]).addr != addr,
            decreases 64 - t,
        {
            let e = self.cache[t];
            if !e.in_use && e.addr == 0 {
                self.cache[t] = CacheEntry { in_use: false, addr, len: need };
                proof {
                    assert(is_first_free_slot(c, t as int));
                    let s = choose|s: int| is_first_free_slot(c, s);
                    lemma_first_free_slot_unique(c, t as int, s);
                }
                return DeallocStep::Done;
            }
            t = t + 1;
        }
        assert(forall|s: int| !is_first_free_slot(c, s));

        // Every slot holds some other live region: give this one back to
        // the kernel.
        DeallocStep::Unmap { addr, len: need }
    }

    /// Decide how to resize a region.  Pool regions move to a fresh
    /// allocation; rounded shrinks keep the region; everything else needs
    /// one remap, in place in the cache or directly.
    pub fn reallocate(&mut self, addr: usize, old_size: usize, align: usize, new_size: usize) -> (r:
        ReallocStep)
        requires
            old(self).wf(),
            old(self).initialized(),
            old_size <= usize::MAX - 4095,
            new_size <= usize::MAX - 4095,
        ensures
            realloc_post(*old(self), *final(self), addr, old_size, align, new_size, r),
            final(self).wf(),
            final(self).initialized(),
    {
        if addr >= self.small.base && addr - self.small.base < POOL_CAPACITY {
            return ReallocStep::CopyToNew { new_size, align };
        }

        let old_rounded = round_to_page(old_size);
        let new_rounded = round_to_page(new_size);
        if new_rounded <= old_rounded {
            return ReallocStep::Keep { addr };
        }

        let ghost c = self.cache@;
        let mut t: usize = 0;
        while t < 64
            invariant
                old(self).wf(),
                old(self).initialized(),
                !old(self).small.in_pool(addr),
                self.small == old(self).small,
                self.cache@ == c,
                c == old(self).cache@,
                c.len() == 64,
                t <= 64,
                old_rounded == 4096 * spec_units(old_size as int),
                new_rounded == 4096 * spec_units(new_size as int),
                old_rounded < new_rounded,
                forall|u: int| 0 <= u < t ==> (#[trigger] c[u]).addr != addr,
            decreases 64 - t,
        {
            let e = self.cache[t];
            if e.addr == addr {
                proof {
                    assert(is_first_match(c, addr, t as int));
                    let s = choose|s: int| is_first_match(c, addr, s);
                    lemma_first_match_unique(c, addr, t as int, s);
                }
                return ReallocStep::Grow {
                    slot: t,
                    old_addr: addr,
                    old_len: old_rounded,
                    new_len: new_rounded,
                };
            }
            t = t + 1;
        }
        assert(forall|s: int| !is_first_match(c, addr, s));

        ReallocStep::GrowFresh { old_addr: addr, old_len: old_rounded, new_len: new_rounded }
    }

    /// Record the outcome of the remap that a `ReallocStep::Grow` asked
    /// for.  On success the slot keeps the (possibly relocated) mapping at
    /// its new length; on failure nothing changes — the original mapping is
    /// still valid and still recorded.
    pub fn finish_realloc_grow(&mut self, slot: usize, new_len: usize, result: Option<usize>) -> (r:
        Option<usize>)
        requires
            old(self).wf(),
            slot < 64,
            result != Some(0usize),
            result matches Some(a) ==> forall|t: int|
                0 <= t < 64 && t != slot ==> (#[trigger] old(self).cache@[t]).addr != a,
        ensures
            realloc_grow_post(*old(self), *final(self), slot, new_len, result, r),
            final(self).wf(),
            final(self).initialized() == old(self).initialized(),
    {
        match result {
            Some(addr) => {
                let in_use = self.cache[slot].in_use;
                self.cache[slot] = CacheEntry { in_use, addr, len: new_len };
                Some(addr)
            },
            None => None,
        }
    }

    /// Give up every mapping the cache still holds: returns the address and
    /// length of each, for the caller to unmap, and leaves the cache empty.
    pub fn teardown(&mut self) -> (r: Vec<(usize, usize)>)
        requires
            old(self).wf(),
        ensures
            r@ == regions_of(old(self).cache@, 64),
            final(self).small == old(self).small,
            final(self).cache@.len() == 64,
            forall|t: int|
                0 <= t < 64 ==> final(self).cache@[t] == (CacheEntry {
                    in_use: false,
                    addr: 0,
                    len: 0,
                }),
            final(self).wf(),
    {
        let ghost c = self.cache@;
        let mut out: Vec<(usize, usize)> = Vec::new();
        let mut t: usize = 0;
        while t < 64
            invariant
                c.len() == 64,
                self.cache@.len() == 64,
                t <= 64,
                self.small == old(self).small,
                out@ == regions_of(c, t as int),
                forall|u: int|
                    0 <= u < t ==> self.cache@[u] == (CacheEntry {
                        in_use: false,
                        addr: 0,
                        len: 0,
                    }),
                forall|u: int| t <= u < 64 ==> self.cache@[u] == c[u],
            decreases 64 - t,
        {
            let e = self.cache[t];
            if e.addr != 0 {
                out.push((e.addr, e.len));
            }
            self.cache[t] = CacheEntry { in_use: false, addr: 0, len: 0 };
            t = t + 1;
        }
        out
    }
}

/// What `AllocatorImpl::finish_grow` does with the remap outcome for the
/// claimed slot: success records the grown mapping in use; failure keeps
/// the old mapping, unused again.
pub open spec fn grow_post(
    pre: AllocatorImpl,
    post: AllocatorImpl,
    slot: usize,
    new_len: usize,
    result: Option<usize>,
    r: Option<usize>,
) -> bool {
    let c = pre.cache@;
    &&& post.small == pre.small
    &&& match result {
        Some(a) => {
            &&& r == Some(a)
            &&& post.cache@ == c.update(
                slot as int,
                CacheEntry { in_use: true, addr: a, len: new_len },
            )
        },
        None => {
            &&& r is None
            &&& post.cache@ == c.update(
                slot as int,
                CacheEntry { in_use: false, addr: c[slot as int].addr, len: c[slot as int].len },
            )
        },
    }
}

/// What `AllocatorImpl::finish_realloc_grow` does with the remap outcome:
/// failure leaves the cache exactly as it was.
pub open spec fn realloc_grow_post(
    pre: AllocatorImpl,
    post: AllocatorImpl,
    slot: usize,
    new_len: usize,
    result: Option<usize>,
    r: Option<usize>,
) -> bool {
    let c = pre.cache@;
    &&& post.small == pre.small
    &&& match result {
        Some(a) => {
            &&& r == Some(a)
            &&& post.cache@ == c.update(
                slot as int,
                CacheEntry { in_use: c[slot as int].in_use, addr: a, len: new_len },
            )
        },
        None => {
            &&& r is None
            &&& post.cache@ == c
        },
    }
}

/// What `AllocatorImpl::deallocate` does: pool regions go back to the pool
/// (with double frees reported as `Corrupt`); a region whose address is
/// recorded is marked unused; a new region is recorded in the first
/// never-used slot; with no such slot it is handed back for unmapping.
pub open spec fn dealloc_post(
    pre: AllocatorImpl,
    post: AllocatorImpl,
    addr: usize,
    size: usize,
    r: DeallocStep,
) -> bool {
    let p = spec_units(size as int) as u64;
    let op = (((addr - pre.small.base) as int) / 4096) as u64;
    let cm = run_mask(p, op);
    let need = (4096 * spec_units(size as int)) as usize;
    let c = pre.cache@;
    &&& post.small.base == pre.small.base
    &&& if pre.small.in_pool(addr) {
        &&& post.cache@ == c
        &&& if cm & pre.small.usage_mask == cm {
            &&& r == DeallocStep::Done
            &&& post.small.usage_mask == pre.small.usage_mask ^ cm
        } else {
            &&& r == DeallocStep::Corrupt
            &&& post.small.usage_mask == pre.small.usage_mask
        }
    } else {
        &&& post.small == pre.small
        &&& if exists|s: int| is_first_match(c, addr, s) {
            let s = choose|s: int| is_first_match(c, addr, s);
            &&& r == DeallocStep::Done
            &&& post.cache@ == c.update(
                s,
                CacheEntry { in_use: false, addr: c[s].addr, len: c[s].len },
            )
        } else if exists|s: int| is_first_free_slot(c, s) {
            let s = choose|s: int| is_first_free_slot(c, s);
            &&& r == DeallocStep::Done
            &&& post.cache@ == c.update(s, CacheEntry { in_use: false, addr, len: need })
        } else {
            &&& r == (DeallocStep::Unmap { addr, len: need })
            &&& post.cache@ == c
        }
    }
}

/// What `AllocatorImpl::reallocate` decides; it changes no state itself.
pub open spec fn realloc_post(
    pre: AllocatorImpl,
    post: AllocatorImpl,
    addr: usize,
    old_size: usize,
    align: usize,
    new_size: usize,
    r: ReallocStep,
) -> bool {
    let old_rounded = (4096 * spec_units(old_size as int)) as usize;
    let new_rounded = (4096 * spec_units(new_size as int)) as usize;
    let c = pre.cache@;
    &&& post.small == pre.small
    &&& post.cache@ == c
    &&& if pre.small.in_pool(addr) {
        r == (ReallocStep::CopyToNew { new_size, align })
    } else if new_rounded <= old_rounded {
        r == (ReallocStep::Keep { addr })
    } else if exists|s: int| is_first_match(c, addr, s) {
        let s = choose|s: int| is_first_match(c, addr, s);
        r == (ReallocStep::Grow {
            slot: s as usize,
            old_addr: addr,
            old_len: old_rounded,
            new_len: new_rounded,
        })
    } else {
        r == (ReallocStep::GrowFresh {
            old_addr: addr,
            old_len: old_rounded,
            new_len: new_rounded,
        })
    }
}

/// The mappings a cache prefix of length `n` holds, in slot order: what a
/// teardown of those slots must unmap.
pub open spec fn regions_of(c: Seq<CacheEntry>, n: int) -> Seq<(usize, usize)>
    decreases n,
{
    if n <= 0 {
        Seq::empty()
    } else if c[n - 1].addr != 0 {
        regions_of(c, n - 1).push((c[n - 1].addr, c[n - 1].len))
    } else {
        regions_of(c, n - 1)
    }
}

/// How many regions in `rs` have address `a`.
pub open spec fn count_addr(rs: Seq<(usize, usize)>, a: usize) -> int
    decreases rs.len(),
{
    if rs.len() == 0 {
        0
    } else {
        count_addr(rs.drop_last(), a) + if rs.last().0 == a {
            1int
        } else {
            0int
        }
    }
}

proof fn lemma_regions_count(c: Seq<CacheEntry>, n: int, a: usize)
    requires
        a != 0,
        0 <= n <= c.len(),
        forall|s: int, t: int|
            #![trigger c[s].addr, c[t].addr]
            0 <= s < c.len() && 0 <= t < c.len() && s != t && c[s].addr != 0 ==> c[s].addr
                != c[t].addr,
    ensures
        count_addr(regions_of(c, n), a) == (if exists|s: int|
            0 <= s < n && (#[trigger] c[s]).addr == a {
            1int
        } else {
            0int
        }),
    decreases n,
{
    if n > 0 {
        lemma_regions_count(c, (n - 1) as int, a);
        if c[n - 1].addr != 0 {
            let rs = regions_of(c, n);
            assert(rs.drop_last() =~= regions_of(c, n - 1));
            if c[n - 1].addr == a {
                assert forall|s: int| 0 <= s < n - 1 implies (#[trigger] c[s]).addr != a by {}
            }
        }
    }
}

/// Teardown releases everything: a mapping the cache holds at teardown
/// appears in the teardown list exactly once (and an address it does not
/// hold appears not at all), so each held mapping gets exactly one unmap.
pub proof fn lemma_teardown_releases_each_once(pre: AllocatorImpl, a: usize)
    requires
        pre.wf(),
        a != 0,
    ensures
        count_addr(regions_of(pre.cache@, 64), a) == (if exists|s: int|
            0 <= s < 64 && (#[trigger] pre.cache@[s]).addr == a {
            1int
        } else {
            0int
        }),
{
    lemma_regions_count(pre.cache@, 64, a);
}

/// The pool and the page cache behind one interface: the process-wide
/// allocator.  The embedding program serializes access to it (the design
/// guards this state with a spin lock) and performs the kernel calls that
/// the returned steps ask for.
pub struct Allocator {
    pub imp: AllocatorImpl,
}

impl Allocator {
    /// The state is well formed.
    pub open spec fn wf(self) -> bool {
        self.imp.wf()
    }

    /// The pool's backing region has been installed.
    pub open spec fn initialized(self) -> bool {
        self.imp.initialized()
    }

    /// A fresh allocator: empty pool mask, no backing region yet, and a
    /// cache of 64 never-used slots.
    pub fn new() -> (r: Allocator)
        ensures
            r.wf(),
            !r.initialized(),
            r.imp.small.usage_mask == 0,
            forall|t: int|
                0 <= t < 64 ==> r.imp.cache@[t] == (CacheEntry { in_use: false, addr: 0, len: 0 }),
    {
        let mut cache: Vec<CacheEntry> = Vec::new();
        let mut t: usize = 0;
        while t < 64
            invariant
                t <= 64,
                cache@.len() == t as int,
                forall|u: int|
                    0 <= u < t ==> cache@[u] == (CacheEntry { in_use: false, addr: 0, len: 0 }),
            decreases 64 - t,
        {
            cache.push(CacheEntry { in_use: false, addr: 0, len: 0 });
            t = t + 1;
        }
        Allocator { imp: AllocatorImpl { small: SmallAllocator { base: 0, usage_mask: 0 }, cache } }
    }

    /// Install the pool's backing region: the address of a page-aligned
    /// region of `POOL_CAPACITY` bytes that the allocator owns from here
    /// on.  Must be called exactly once, before the first allocation.
    pub fn init(&mut self, base: usize)
        requires
            old(self).wf(),
            !old(self).initialized(),
            base != 0,
            base as int % 4096 == 0,
            base + POOL_CAPACITY <= usize::MAX,
        ensures
            final(self).wf(),
            final(self).initialized(),
            final(self).imp.small.base == base,
            final(self).imp.small.usage_mask == old(self).imp.small.usage_mask,
            final(self).imp.cache@ == old(self).imp.cache@,
    {
        self.imp.small.base = base;
    }

    /// Decide how to serve an allocation request; see
    /// `AllocatorImpl::allocate`.
    pub fn allocate(&mut self, size: usize, align: usize) -> (r: AllocStep)
        requires
            old(self).wf(),
            old(self).initialized(),
            1 <= size <= usize::MAX - 4095,
        ensures
            alloc_post(old(self).imp, final(self).imp, size, align, r),
            final(self).wf(),
            final(self).initialized(),
    {
        self.imp.allocate(size, align)
    }

    /// Record the outcome of the remap an `AllocStep::Grow` asked for; see
    /// `AllocatorImpl::finish_grow`.
    pub fn finish_grow(&mut self, slot: usize, new_len: usize, result: Option<usize>) -> (r: Option<
        usize,
    >)
        requires
            old(self).wf(),
            slot < 64,
            old(self).imp.cache@[slot as int].in_use,
            result != Some(0usize),
            result matches Some(a) ==> forall|t: int|
                0 <= t < 64 && t != slot ==> (#[trigger] old(self).imp.cache@[t]).addr != a,
        ensures
            grow_post(old(self).imp, final(self).imp, slot, new_len, result, r),
            final(self).wf(),
            final(self).initialized() == old(self).initialized(),
    {
        self.imp.finish_grow(slot, new_len, result)
    }

    /// Take back a region; see `AllocatorImpl::deallocate`.
    pub fn deallocate(&mut self, addr: usize, size: usize) -> (r: DeallocStep)
        requires
            old(self).wf(),
            old(self).initialized(),
            size <= usize::MAX - 4095,
            old(self).imp.small.in_pool(addr) ==> 1 <= size <= POOL_CAPACITY,
        ensures
            dealloc_post(old(self).imp, final(self).imp, addr, size, r),
            final(self).wf(),
            final(self).initialized(),
    {
        self.imp.deallocate(addr, size)
    }

    /// Decide how to resize a region; see `AllocatorImpl::reallocate`.
    pub fn reallocate(&mut self, addr: usize, old_size: usize, align: usize, new_size: usize) -> (r:
        ReallocStep)
        requires
            old(self).wf(),
            old(self).initialized(),
            old_size <= usize::MAX - 4095,
            new_size <= usize::MAX - 4095,
        ensures
            realloc_post(old(self).imp, final(self).imp, addr, old_size, align, new_size, r),
            final(self).wf(),
            final(self).initialized(),
    {
        self.imp.reallocate(addr, old_size, align, new_size)
    }

    /// Record the outcome of the remap a `ReallocStep::Grow` asked for; see
    /// `AllocatorImpl::finish_realloc_grow`.
    pub fn finish_realloc_grow(&mut self, slot: usize, new_len: usize, result: Option<usize>) -> (r:
        Option<usize>)
        requires
            old(self).wf(),
            slot < 64,
            result != Some(0usize),
            result matches Some(a) ==> forall|t: int|
                0 <= t < 64 && t != slot ==> (#[trigger] old(self).imp.cache@[t]).addr != a,
        ensures
            realloc_grow_post(old(self).imp, final(self).imp, slot, new_len, result, r),
            final(self).wf(),
            final(self).initialized() == old(self).initialized(),
    {
        self.imp.finish_realloc_grow(slot, new_len, result)
    }

    /// Give up every mapping the cache still holds, for the caller to
    /// unmap; see `AllocatorImpl::teardown`.
    pub fn teardown(&mut self) -> (r: Vec<(usize, usize)>)
        requires
            old(self).wf(),
        ensures
            r@ == regions_of(old(self).imp.cache@, 64),
            final(self).imp.small == old(self).imp.small,
            forall|t: int|
                0 <= t < 64 ==> final(self).imp.cache@[t] == (CacheEntry {
                    in_use: false,
                    addr: 0,
                    len: 0,
                }),
            final(self).wf(),
    {
        self.imp.teardown()
    }
}

} // verus!
