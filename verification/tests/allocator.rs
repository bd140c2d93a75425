use veneer::allocator::{AllocStep, CacheEntry, DeallocStep, ReallocStep};
use veneer::{Allocator, PoolDealloc, SmallAllocator};

const UNIT: usize = 4096;
const POOL_BASE: usize = 0x10000;
const POOL_CAPACITY: usize = 64 * 4096;

fn fresh() -> Allocator {
    let mut a = Allocator::new();
    a.init(POOL_BASE);
    a
}

#[test]
fn small() {
    let mut alloc = SmallAllocator {
        base: POOL_BASE,
        usage_mask: 0,
    };

    for size in 1..4096 {
        println!("{}", size);
        let remainder = size % UNIT;
        let rounded = if remainder == 0 {
            size
        } else {
            size + UNIT - remainder
        };
        let blocks = rounded / UNIT;

        assert!(blocks * UNIT >= size);

        let ptr = alloc.allocate(size, 1);

        assert!(ptr.is_some());

        assert_eq!(blocks, alloc.usage_mask.count_ones() as usize);
        assert!(alloc.deallocate(ptr.unwrap(), size) == PoolDealloc::Freed);
        assert_eq!(0, alloc.usage_mask.count_ones());
    }
}

#[test]
fn pool_first_fit_lowest_offset() {
    let mut alloc = SmallAllocator {
        base: POOL_BASE,
        usage_mask: 0,
    };

    // Claim three regions; they are laid out back to back from the start.
    let a = alloc.allocate(4096, 1).unwrap();
    let b = alloc.allocate(2 * 4096, 1).unwrap();
    let c = alloc.allocate(4096, 1).unwrap();
    assert_eq!(a, POOL_BASE);
    assert_eq!(b, POOL_BASE + UNIT);
    assert_eq!(c, POOL_BASE + 3 * UNIT);

    // Free the two-unit hole; a one-unit request lands at its start, the
    // lowest free offset.
    assert!(alloc.deallocate(b, 2 * 4096) == PoolDealloc::Freed);
    let d = alloc.allocate(100, 1).unwrap();
    assert_eq!(d, POOL_BASE + UNIT);

    // A two-unit request does not fit the remaining one-unit hole and lands
    // after the last claimed unit.
    let e = alloc.allocate(2 * 4096, 1).unwrap();
    assert_eq!(e, POOL_BASE + 4 * UNIT);
}

#[test]
fn pool_zero_and_oversized_fail_cleanly() {
    let mut alloc = SmallAllocator {
        base: POOL_BASE,
        usage_mask: 0,
    };
    let before = alloc.usage_mask;

    assert!(alloc.allocate(0, 1).is_none());
    assert_eq!(alloc.usage_mask, before);

    assert!(alloc.allocate(POOL_CAPACITY + 1, 1).is_none());
    assert_eq!(alloc.usage_mask, before);

    // Alignments beyond one unit are refused too.
    assert!(alloc.allocate(4096, 8192).is_none());
    assert_eq!(alloc.usage_mask, before);

    // A full-capacity request still succeeds and claims every unit.
    let all = alloc.allocate(POOL_CAPACITY, 1).unwrap();
    assert_eq!(all, POOL_BASE);
    assert_eq!(alloc.usage_mask, u64::MAX);
}

#[test]
fn pool_no_overlap_interleaved() {
    let mut alloc = SmallAllocator {
        base: POOL_BASE,
        usage_mask: 0,
    };
    let mut live: Vec<(usize, usize)> = Vec::new();

    let sizes = [4096, 8192, 4096, 12288, 4096, 8192];
    for &size in &sizes {
        let addr = alloc.allocate(size, 1).unwrap();
        live.push((addr, size));
    }
    // Free every other allocation, then allocate again into the holes.
    let freed: Vec<(usize, usize)> = live.iter().copied().skip(1).step_by(2).collect();
    live = live.iter().copied().step_by(2).collect();
    for &(addr, size) in &freed {
        assert!(alloc.deallocate(addr, size) == PoolDealloc::Freed);
    }
    for size in [4096, 4096, 8192] {
        let addr = alloc.allocate(size, 1).unwrap();
        live.push((addr, size));
    }

    // No two live regions intersect.
    for (i, &(a1, s1)) in live.iter().enumerate() {
        for &(a2, s2) in live.iter().skip(i + 1) {
            assert!(a1 + s1 <= a2 || a2 + s2 <= a1);
        }
    }
}

#[test]
fn pool_double_free_is_fatal() {
    let mut a = fresh();

    let step = a.allocate(5000, 8);
    let addr = match step {
        AllocStep::Done(addr) => addr,
        _ => panic!("pool request must be served by the pool"),
    };
    assert_eq!(addr, POOL_BASE);

    assert!(a.deallocate(addr, 5000) == DeallocStep::Done);
    // The second release of the same region must report corruption, not
    // silently succeed.
    assert!(a.deallocate(addr, 5000) == DeallocStep::Corrupt);
}

#[test]
fn pool_partial_run_is_corrupt() {
    let mut alloc = SmallAllocator {
        base: POOL_BASE,
        usage_mask: 0,
    };
    let addr = alloc.allocate(2 * 4096, 1).unwrap();
    // Releasing more units than were allocated finds expected units unset.
    assert!(alloc.deallocate(addr, 3 * 4096) == PoolDealloc::Corrupt);
    // The mask is untouched and the honest release still works.
    assert!(alloc.deallocate(addr, 2 * 4096) == PoolDealloc::Freed);
    assert_eq!(alloc.usage_mask, 0);
}

#[test]
fn teardown_releases_failed_grow_mapping() {
    let mut a = fresh();
    assert!(a.deallocate(0x200000, 4096) == DeallocStep::Done);
    let step = a.allocate(8192, 8192);
    assert!(matches!(step, AllocStep::Grow { slot: 0, .. }));
    // The remap failed: the mapping is still live at its old address, so
    // teardown must still release it, exactly once.
    assert_eq!(a.finish_grow(0, 8192, None), None);
    assert_eq!(a.teardown(), vec![(0x200000, 4096)]);
}

#[test]
fn cache_closest_fit_reuse() {
    let mut a = fresh();

    // Three unused cached mappings of 4096, 8192 and 16384 bytes.
    assert!(a.deallocate(0x200000, 4096) == DeallocStep::Done);
    assert!(a.deallocate(0x300000, 8192) == DeallocStep::Done);
    assert!(a.deallocate(0x400000, 16384) == DeallocStep::Done);

    // 6000 bytes round to 8192: the 8192-byte mapping is reused, not
    // grown.  The alignment exceeds the pool's, so the pool stands aside.
    let step = a.allocate(6000, 8192);
    assert_eq!(step, AllocStep::Done(0x300000));
    assert_eq!(
        a.imp.cache[1],
        CacheEntry {
            in_use: true,
            addr: 0x300000,
            len: 8192
        }
    );
    // The other two mappings are untouched.
    assert!(!a.imp.cache[0].in_use);
    assert!(!a.imp.cache[2].in_use);
}

#[test]
fn cache_closest_fit_tie_breaks_by_scan_order() {
    let mut a = fresh();
    assert!(a.deallocate(0x200000, 8192) == DeallocStep::Done);
    assert!(a.deallocate(0x300000, 8192) == DeallocStep::Done);

    let step = a.allocate(6000, 8192);
    assert_eq!(step, AllocStep::Done(0x200000));
}

#[test]
fn cache_grows_largest_available() {
    let mut a = fresh();
    assert!(a.deallocate(0x200000, 4096) == DeallocStep::Done);
    assert!(a.deallocate(0x300000, 16384) == DeallocStep::Done);
    assert!(a.deallocate(0x400000, 8192) == DeallocStep::Done);

    // Nothing cached holds 32768 bytes: the 16384-byte mapping is grown.
    let step = a.allocate(32768, 8192);
    assert_eq!(
        step,
        AllocStep::Grow {
            slot: 1,
            old_addr: 0x300000,
            old_len: 16384,
            new_len: 32768
        }
    );
    assert!(a.imp.cache[1].in_use);

    // The kernel moved the mapping; the slot follows it.
    let got = a.finish_grow(1, 32768, Some(0x500000));
    assert_eq!(got, Some(0x500000));
    assert_eq!(
        a.imp.cache[1],
        CacheEntry {
            in_use: true,
            addr: 0x500000,
            len: 32768
        }
    );
}

#[test]
fn cache_grow_failure_keeps_mapping() {
    let mut a = fresh();
    assert!(a.deallocate(0x200000, 4096) == DeallocStep::Done);

    let step = a.allocate(8192, 8192);
    assert_eq!(
        step,
        AllocStep::Grow {
            slot: 0,
            old_addr: 0x200000,
            old_len: 4096,
            new_len: 8192
        }
    );
    // The remap failed: the caller gets null, and the old mapping is kept
    // in its slot, unused and reusable.
    let got = a.finish_grow(0, 8192, None);
    assert_eq!(got, None);
    assert_eq!(
        a.imp.cache[0],
        CacheEntry {
            in_use: false,
            addr: 0x200000,
            len: 4096
        }
    );
    let step = a.allocate(4096, 8192);
    assert_eq!(step, AllocStep::Done(0x200000));
}

#[test]
fn cache_miss_asks_for_fresh_mapping() {
    let mut a = fresh();
    let step = a.allocate(POOL_CAPACITY + 1, 4096);
    assert_eq!(
        step,
        AllocStep::Fresh {
            len: POOL_CAPACITY + 4096
        }
    );
}

#[test]
fn dealloc_full_cache_unmaps() {
    let mut a = fresh();
    for i in 0..64 {
        let addr = 0x200000 + i * 0x10000;
        assert!(a.deallocate(addr, 4096) == DeallocStep::Done);
    }
    // All 64 slots hold live regions: the next one goes straight back to
    // the kernel, rounded to page size.
    let step = a.deallocate(0x800000, 5000);
    assert_eq!(
        step,
        DeallocStep::Unmap {
            addr: 0x800000,
            len: 8192
        }
    );
}

#[test]
fn dealloc_known_address_marks_slot_unused() {
    let mut a = fresh();
    assert!(a.deallocate(0x200000, 8192) == DeallocStep::Done);
    let step = a.allocate(8000, 8192);
    assert_eq!(step, AllocStep::Done(0x200000));
    assert!(a.imp.cache[0].in_use);

    assert!(a.deallocate(0x200000, 8192) == DeallocStep::Done);
    assert_eq!(
        a.imp.cache[0],
        CacheEntry {
            in_use: false,
            addr: 0x200000,
            len: 8192
        }
    );
}

#[test]
fn realloc_pool_region_copies_to_new() {
    let mut a = fresh();
    let step = a.allocate(4096, 8);
    assert_eq!(step, AllocStep::Done(POOL_BASE));
    let step = a.reallocate(POOL_BASE, 4096, 8, 20000);
    assert_eq!(
        step,
        ReallocStep::CopyToNew {
            new_size: 20000,
            align: 8
        }
    );
}

#[test]
fn realloc_shrink_keeps_region() {
    let mut a = fresh();
    // Shrinking (after rounding) keeps the pointer; the excess is retained.
    let step = a.reallocate(0x200000, 8192, 8, 4096);
    assert_eq!(step, ReallocStep::Keep { addr: 0x200000 });
    let step = a.reallocate(0x200000, 8192, 8, 8000);
    assert_eq!(step, ReallocStep::Keep { addr: 0x200000 });
}

#[test]
fn realloc_cached_region_grows_in_place() {
    let mut a = fresh();
    assert!(a.deallocate(0x200000, 8192) == DeallocStep::Done);
    let step = a.allocate(8192, 8192);
    assert_eq!(step, AllocStep::Done(0x200000));

    let step = a.reallocate(0x200000, 8192, 8, 16384);
    assert_eq!(
        step,
        ReallocStep::Grow {
            slot: 0,
            old_addr: 0x200000,
            old_len: 8192,
            new_len: 16384
        }
    );
    // Grown in place: the slot keeps the address, at the new length.
    let got = a.finish_realloc_grow(0, 16384, Some(0x200000));
    assert_eq!(got, Some(0x200000));
    assert_eq!(
        a.imp.cache[0],
        CacheEntry {
            in_use: true,
            addr: 0x200000,
            len: 16384
        }
    );
}

#[test]
fn realloc_grow_failure_leaves_cache_unchanged() {
    let mut a = fresh();
    assert!(a.deallocate(0x200000, 8192) == DeallocStep::Done);
    let step = a.allocate(8192, 8192);
    assert_eq!(step, AllocStep::Done(0x200000));
    let before = a.imp.cache.clone();

    let step = a.reallocate(0x200000, 8192, 8, 16384);
    assert!(matches!(step, ReallocStep::Grow { .. }));
    let got = a.finish_realloc_grow(0, 16384, None);
    assert_eq!(got, None);
    // The original mapping is still valid and still recorded.
    assert_eq!(a.imp.cache, before);
}

#[test]
fn realloc_unknown_region_grows_directly() {
    let mut a = fresh();
    let step = a.reallocate(0x200000, 4096, 8, 16000);
    assert_eq!(
        step,
        ReallocStep::GrowFresh {
            old_addr: 0x200000,
            old_len: 4096,
            new_len: 16384
        }
    );
}

#[test]
fn teardown_releases_everything_once() {
    let mut a = fresh();
    assert!(a.deallocate(0x200000, 4096) == DeallocStep::Done);
    assert!(a.deallocate(0x300000, 8192) == DeallocStep::Done);
    assert!(a.deallocate(0x400000, 16384) == DeallocStep::Done);
    // One region is handed out again and so is in use at teardown.
    let step = a.allocate(8192, 8192);
    assert_eq!(step, AllocStep::Done(0x300000));

    let regions = a.teardown();
    // Every recorded mapping appears exactly once, in-use ones included.
    assert_eq!(regions, vec![(0x200000, 4096), (0x300000, 8192), (0x400000, 16384)]);
    for e in a.imp.cache.iter() {
        assert_eq!(
            *e,
            CacheEntry {
                in_use: false,
                addr: 0,
                len: 0
            }
        );
    }
}
