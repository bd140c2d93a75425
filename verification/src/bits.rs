//! Bit-level model of the small-object pool's usage mask.
//!
//! The pool tracks 64 equal-size units in one `u64`: unit `i` corresponds to
//! bit `63 - i`, so a contiguous run of units is a contiguous run of bits
//! built by shifting a block of high bits down.  Everything the allocator
//! claims about the mask is stated through the spec functions here and
//! proved by the lemmas that follow.

use vstd::prelude::*;

verus! {

/// Unit `i` of the pool is marked allocated in `mask` (bit `63 - i` is set).
pub open spec fn unit_used(mask: u64, i: u64) -> bool
    recommends
        i < 64,
{
    ((mask >> ((63 - i) as u64)) & 1) == 1
}

/// The mask claiming the `p` contiguous units `i .. i + p`.
pub open spec fn run_mask(p: u64, i: u64) -> u64
    recommends
        1 <= p <= 64,
        i + p <= 64,
{
    (u64::MAX << ((64 - p) as u64)) >> i
}

/// The run of `p` units starting at unit `i` lies inside the pool and none
/// of its units is allocated in `mask`.
pub open spec fn fits(mask: u64, i: u64, p: u64) -> bool
    recommends
        1 <= p <= 64,
{
    i + p <= 64 && run_mask(p, i) & mask == 0
}

/// Every unit in `i .. i + p` is unallocated in `mask`.
pub open spec fn run_free(mask: u64, i: u64, p: u64) -> bool {
    forall|j: u64| i <= j < i + p ==> !#[trigger] unit_used(mask, j)
}

/// The number of allocated units in `mask` (its set bits).
pub open spec fn count_units(m: u64) -> nat
    decreases m,
{
    if m == 0 {
        0
    } else {
        (m % 2 + count_units(m / 2)) as nat
    }
}

/// The offset of the first run of `p` free units at or after offset `i`,
/// if any: the linear first-fit scan of the pool, as a function.
pub open spec fn first_fit_from(mask: u64, p: u64, i: u64) -> Option<u64>
    decreases 64 - i,
{
    if p < 1 || p > 64 || i + p > 64 {
        None
    } else if fits(mask, i, p) {
        Some(i)
    } else {
        first_fit_from(mask, p, (i + 1) as u64)
    }
}

/// The lowest offset whose run of `p` units is entirely free, if any.
pub open spec fn first_fit(mask: u64, p: u64) -> Option<u64> {
    first_fit_from(mask, p, 0)
}

/// `run_mask(p, i)` sets exactly the bits of units `i .. i + p`.
pub proof fn lemma_run_mask_bit(p: u64, i: u64, j: u64)
    requires
        1 <= p <= 64,
        i + p <= 64,
        j < 64,
    ensures
        unit_used(run_mask(p, i), j) <==> (i <= j < i + p),
{
    assert((1 <= p <= 64 && i + p <= 64 && j < 64) ==> (unit_used(run_mask(p, i), j) <==> (i <= j
        && j < i + p))) by (bit_vector);
}

/// Two masks with empty intersection share no set unit.
pub proof fn lemma_and_zero_bit(a: u64, b: u64, j: u64)
    requires
        a & b == 0,
        j < 64,
    ensures
        !(unit_used(a, j) && unit_used(b, j)),
{
    assert((a & b == 0 && j < 64) ==> !(unit_used(a, j) && unit_used(b, j))) by (bit_vector);
}

/// A unit of `a | b` is a unit of `a` or of `b`.
pub proof fn lemma_or_bit(a: u64, b: u64, j: u64)
    requires
        j < 64,
    ensures
        unit_used(a | b, j) == (unit_used(a, j) || unit_used(b, j)),
{
    assert(j < 64 ==> (unit_used(a | b, j) == (unit_used(a, j) || unit_used(b, j)))) by (bit_vector);
}

/// Removing the claimed bits of `c` from `m` (when all are set) clears
/// exactly the units of `c`.
pub proof fn lemma_xor_bit(m: u64, c: u64, j: u64)
    requires
        c & m == c,
        j < 64,
    ensures
        unit_used(m ^ c, j) == (unit_used(m, j) && !unit_used(c, j)),
{
    assert((c & m == c && j < 64) ==> (unit_used(m ^ c, j) == (unit_used(m, j) && !unit_used(
        c,
        j,
    )))) by (bit_vector);
}

/// Claiming fresh bits and releasing them restores the mask, and the claimed
/// bits are all set in between.
pub proof fn lemma_claim_release(m: u64, c: u64)
    requires
        m & c == 0,
    ensures
        (m | c) ^ c == m,
        c & (m | c) == c,
{
    assert(m & c == 0 ==> ((m | c) ^ c == m && c & (m | c) == c)) by (bit_vector);
}

/// A run that fits is a run of free units.
pub proof fn lemma_fits_implies_free(mask: u64, i: u64, p: u64)
    requires
        1 <= p <= 64,
        fits(mask, i, p),
    ensures
        run_free(mask, i, p),
{
    assert forall|j: u64| i <= j < i + p implies !#[trigger] unit_used(mask, j) by {
        lemma_run_mask_bit(p, i, j);
        lemma_and_zero_bit(run_mask(p, i), mask, j);
    }
}

/// A run of free units fits: the claimed mask does not intersect `mask`.
pub proof fn lemma_free_implies_fits(mask: u64, i: u64, p: u64)
    requires
        1 <= p <= 64,
        i + p <= 64,
        run_free(mask, i, p),
    ensures
        fits(mask, i, p),
    decreases p,
{
    if p == 1 {
        assert(!unit_used(mask, i));
        assert((i < 64 && !unit_used(mask, i)) ==> run_mask(1, i) & mask == 0) by (bit_vector);
    } else {
        lemma_free_implies_fits(mask, i, (p - 1) as u64);
        let last = (i + p - 1) as u64;
        assert(!unit_used(mask, last));
        assert((2 <= p <= 64 && i + p <= 64) ==> run_mask(p, i) == run_mask((p - 1) as u64, i) | ((
        1u64 << ((64 - p) as u64)) >> i)) by (bit_vector);
        assert((2 <= p <= 64 && i + p <= 64 && !unit_used(mask, (i + p - 1) as u64)) ==> ((1u64 << (
        (64 - p) as u64)) >> i) & mask == 0) by (bit_vector);
        let a = run_mask((p - 1) as u64, i);
        let b = (1u64 << ((64 - p) as u64)) >> i;
        assert((a & mask == 0 && b & mask == 0) ==> (a | b) & mask == 0) by (bit_vector);
    }
}

/// What the first-fit scan returns, starting from offset `start`: a fitting
/// run, below which no run at or after `start` fits; or a guarantee that
/// nothing at or after `start` fits.
pub proof fn lemma_first_fit_from(mask: u64, p: u64, start: u64)
    requires
        1 <= p <= 64,
    ensures
        match first_fit_from(mask, p, start) {
            Some(i) => start <= i && fits(mask, i, p) && forall|i2: u64|
                start <= i2 < i ==> !#[trigger] fits(mask, i2, p),
            None => forall|i2: u64| start <= i2 ==> !#[trigger] fits(mask, i2, p),
        },
    decreases 64 - start,
{
    if start + p > 64 {
        assert forall|i2: u64| start <= i2 implies !#[trigger] fits(mask, i2, p) by {}
    } else if fits(mask, start, p) {
    } else {
        lemma_first_fit_from(mask, p, (start + 1) as u64);
    }
}

/// First-fit determinism: the offset the scan returns is the lowest offset
/// whose whole run of `p` units is free, and a `None` means no run of `p`
/// free units exists anywhere in the pool.
pub proof fn lemma_first_fit(mask: u64, p: u64)
    requires
        1 <= p <= 64,
    ensures
        match first_fit(mask, p) {
            Some(i) => i + p <= 64 && run_free(mask, i, p) && forall|i2: u64|
                i2 < i && i2 + p <= 64 ==> !#[trigger] run_free(mask, i2, p),
            None => forall|i2: u64| i2 + p <= 64 ==> !#[trigger] run_free(mask, i2, p),
        },
{
    lemma_first_fit_from(mask, p, 0);
    match first_fit(mask, p) {
        Some(i) => {
            lemma_fits_implies_free(mask, i, p);
            assert forall|i2: u64| i2 < i && i2 + p <= 64 implies !#[trigger] run_free(
                mask,
                i2,
                p,
            ) by {
                if run_free(mask, i2, p) {
                    lemma_free_implies_fits(mask, i2, p);
                }
            }
        },
        None => {
            assert forall|i2: u64| i2 + p <= 64 implies !#[trigger] run_free(mask, i2, p) by {
                if run_free(mask, i2, p) {
                    lemma_free_implies_fits(mask, i2, p);
                }
            }
        },
    }
}

/// No overlap: a run claimed while free, and any run that still fits
/// afterwards, claim disjoint masks and so share no unit.
pub proof fn lemma_claimed_runs_disjoint(mask: u64, i1: u64, p1: u64, i2: u64, p2: u64)
    requires
        1 <= p1 <= 64,
        1 <= p2 <= 64,
        fits(mask, i1, p1),
        fits(mask | run_mask(p1, i1), i2, p2),
    ensures
        run_mask(p1, i1) & run_mask(p2, i2) == 0,
        forall|j: u64| j < 64 ==> !(#[trigger] unit_used(run_mask(p1, i1), j) && unit_used(
            run_mask(p2, i2),
            j,
        )),
{
    let a = run_mask(p1, i1);
    let b = run_mask(p2, i2);
    assert(b & (mask | a) == 0 ==> a & b == 0) by (bit_vector);
    assert forall|j: u64| j < 64 implies !(#[trigger] unit_used(a, j) && unit_used(b, j)) by {
        lemma_and_zero_bit(a, b, j);
    }
}

/// A live allocation's claimed bits (all set in `m`) stay set when further
/// bits are claimed.
pub proof fn lemma_live_after_claim(m: u64, c1: u64, c: u64)
    requires
        c1 & m == c1,
    ensures
        c1 & (m | c) == c1,
{
    assert(c1 & m == c1 ==> c1 & (m | c) == c1) by (bit_vector);
}

/// A live allocation's claimed bits stay set when a disjoint allocation is
/// released.
pub proof fn lemma_live_after_release(m: u64, c1: u64, c: u64)
    requires
        c1 & m == c1,
        c & c1 == 0,
    ensures
        c1 & (m ^ c) == c1,
{
    assert((c1 & m == c1 && c & c1 == 0) ==> c1 & (m ^ c) == c1) by (bit_vector);
}

/// No overlap with anything live: a run that fits the current mask is
/// disjoint from the claimed bits of every allocation still live in it.
pub proof fn lemma_no_overlap_live(m: u64, c1: u64, i: u64, p: u64)
    requires
        1 <= p <= 64,
        c1 & m == c1,
        fits(m, i, p),
    ensures
        c1 & run_mask(p, i) == 0,
{
    let c = run_mask(p, i);
    assert((c1 & m == c1 && c & m == 0) ==> c1 & c == 0) by (bit_vector);
}

/// `count_units` unfolds the same way for every mask, zero included.
proof fn lemma_count_step(m: u64)
    ensures
        count_units(m) == m % 2 + count_units(m / 2),
{
    if m == 0 {
    }
}

/// Disjoint masks have additive unit counts.
pub proof fn lemma_count_or_disjoint(a: u64, b: u64)
    requires
        a & b == 0,
    ensures
        count_units(a | b) == count_units(a) + count_units(b),
    decreases a + b,
{
    if a | b == 0 {
        assert(a | b == 0 ==> a == 0 && b == 0) by (bit_vector);
    } else {
        assert(a | b != 0 ==> a != 0 || b != 0) by (bit_vector);
        assert(a & b == 0 ==> (a / 2) & (b / 2) == 0) by (bit_vector);
        assert((a | b) / 2 == (a / 2) | (b / 2)) by (bit_vector);
        assert(a & b == 0 ==> (a | b) % 2 == a % 2 + b % 2) by (bit_vector);
        lemma_count_or_disjoint(a / 2, b / 2);
        lemma_count_step(a);
        lemma_count_step(b);
        lemma_count_step(a | b);
    }
}

/// A single set bit counts as one unit.
proof fn lemma_count_single(k: u64)
    requires
        k < 64,
    ensures
        count_units(1u64 << k) == 1,
    decreases k,
{
    if k == 0 {
        assert(1u64 << 0 == 1) by (bit_vector);
        assert(count_units(1) == 1) by {
            lemma_count_step(1);
            lemma_count_step(0);
        }
    } else {
        assert((1 <= k < 64) ==> ((1u64 << k) / 2 == 1u64 << ((k - 1) as u64) && (1u64 << k) % 2
            == 0 && (1u64 << k) != 0)) by (bit_vector);
        lemma_count_single((k - 1) as u64);
        lemma_count_step(1u64 << k);
    }
}

/// A run of `p` units counts exactly `p`.
pub proof fn lemma_count_run(p: u64, i: u64)
    requires
        1 <= p <= 64,
        i + p <= 64,
    ensures
        count_units(run_mask(p, i)) == p,
    decreases p,
{
    if p == 1 {
        assert((i < 64) ==> run_mask(1, i) == 1u64 << ((63 - i) as u64)) by (bit_vector);
        lemma_count_single((63 - i) as u64);
    } else {
        lemma_count_run((p - 1) as u64, i);
        let a = run_mask((p - 1) as u64, i);
        let b = (1u64 << ((64 - p) as u64)) >> i;
        assert((2 <= p <= 64 && i + p <= 64) ==> (run_mask(p, i) == run_mask((p - 1) as u64, i) | ((
        1u64 << ((64 - p) as u64)) >> i) && run_mask((p - 1) as u64, i) & ((1u64 << ((64
            - p) as u64)) >> i) == 0 && (1u64 << ((64 - p) as u64)) >> i == 1u64 << ((64 - (i
            + p)) as u64))) by (bit_vector);
        lemma_count_or_disjoint(a, b);
        lemma_count_single((64 - (i + p)) as u64);
    }
}

} // verus!
