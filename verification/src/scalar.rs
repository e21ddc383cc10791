//! Fixed-point quantities.
//!
//! Every quantity that a blackboard holds or a node is configured with is a
//! signed 64-bit count of thousandths: `1500` stands for one and a half.
//! This module fixes that scale and the few conversions and roots that the
//! evaluator needs, each with an exact statement over the integers.

use vstd::prelude::*;

verus! {

/// How many raw units make one whole.
pub const SCALE: i64 = 1000;

/// One half, the level above which a flag counts as raised.
pub const HALF: i64 = 500;

/// The whole part of `v`, rounded toward zero, with everything below zero
/// read as zero and everything above `limit` read as `limit`.
pub open spec fn whole_units(v: i64, limit: int) -> int {
    if v <= 0 {
        0
    } else if v / SCALE > limit {
        limit
    } else {
        v as int / SCALE as int
    }
}

/// The quantity that stands for `n` wholes; the largest quantity where `n`
/// wholes do not fit.
pub open spec fn scaled(n: int) -> i64 {
    if n * SCALE > i64::MAX {
        i64::MAX
    } else if n * SCALE < i64::MIN {
        i64::MIN
    } else {
        (n * SCALE) as i64
    }
}

/// Reads a quantity as a count.
pub fn to_count(v: i64) -> (n: usize)
    ensures
        n == whole_units(v, usize::MAX as int),
{
    if v <= 0 {
        0
    } else {
        let q: i64 = v / SCALE;
        if q as u64 > usize::MAX as u64 {
            usize::MAX
        } else {
            q as usize
        }
    }
}

/// Reads a quantity as a 32-bit index.
pub fn to_index(v: i64) -> (n: u32)
    ensures
        n == whole_units(v, u32::MAX as int),
{
    if v <= 0 {
        0
    } else {
        let q: i64 = v / SCALE;
        if q > u32::MAX as i64 {
            u32::MAX
        } else {
            q as u32
        }
    }
}

/// Writes a count as a quantity.
pub fn from_count(n: usize) -> (v: i64)
    ensures
        v == scaled(n as int),
{
    if n as u64 > (i64::MAX / SCALE) as u64 {
        i64::MAX
    } else {
        (n as i64) * SCALE
    }
}

/// A count that is written as a quantity and read again is the same count,
/// as long as it fits.
pub proof fn lemma_count_round_trip(n: nat, limit: int)
    requires
        n * SCALE <= i64::MAX,
        n <= limit,
    ensures
        whole_units(scaled(n as int), limit) == n,
{
    assert(n * 1000 / 1000 == n);
}

/// `r` is the largest natural number whose square does not exceed `n`.
pub open spec fn is_floor_sqrt(r: nat, n: nat) -> bool {
    r * r <= n < (r + 1) * (r + 1)
}

/// The square root of `n`, rounded down.
pub open spec fn floor_sqrt(n: nat) -> nat {
    choose|r: nat| is_floor_sqrt(r, n)
}

/// Squaring keeps the order of natural numbers.
pub proof fn lemma_square_monotone(a: nat, b: nat)
    requires
        a <= b,
    ensures
        a * a <= b * b,
{
    assert(a * a <= b * b) by (nonlinear_arith)
        requires
            a <= b,
    ;
}

/// Every natural number has a rounded-down square root.
pub proof fn lemma_floor_sqrt_exists(n: nat)
    ensures
        is_floor_sqrt(floor_sqrt(n), n),
    decreases n,
{
    if n == 0 {
        assert(0nat * 0nat == 0 && (0nat + 1) * (0nat + 1) == 1) by (nonlinear_arith);
        assert(is_floor_sqrt(0, 0));
    } else {
        lemma_floor_sqrt_exists((n - 1) as nat);
        let r = floor_sqrt((n - 1) as nat);
        if (r + 1) * (r + 1) <= n {
            assert((r + 2) * (r + 2) > (r + 1) * (r + 1)) by (nonlinear_arith);
            assert(is_floor_sqrt(r + 1, n));
        } else {
            assert(is_floor_sqrt(r, n));
        }
    }
}

/// The rounded-down square root is the only number between whose square and
/// whose successor's square `n` lies.
pub proof fn lemma_floor_sqrt_unique(r: nat, n: nat)
    requires
        is_floor_sqrt(r, n),
    ensures
        r == floor_sqrt(n),
{
    lemma_floor_sqrt_exists(n);
    let s = floor_sqrt(n);
    if r < s {
        lemma_square_monotone(r + 1, s);
    } else if s < r {
        lemma_square_monotone(s + 1, r);
    }
}

/// A number whose square does not exceed `n` does not exceed the root of `n`.
pub proof fn lemma_floor_sqrt_lower_bound(a: nat, n: nat)
    requires
        a * a <= n,
    ensures
        a <= floor_sqrt(n),
{
    lemma_floor_sqrt_exists(n);
    let s = floor_sqrt(n);
    if s < a {
        lemma_square_monotone(s + 1, a);
    }
}

/// The square root of `n`, rounded down, by bisection.
pub fn isqrt(n: u128) -> (r: u64)
    ensures
        r == floor_sqrt(n as nat),
{
    let mut lo: u128 = 0;
    let mut hi: u128 = 0x1_0000_0000_0000_0000;
    assert(0x1_0000_0000_0000_0000int * 0x1_0000_0000_0000_0000int > u128::MAX);
    while hi - lo > 1
        invariant
            lo < hi <= 0x1_0000_0000_0000_0000,
            lo * lo <= n < hi * hi,
        decreases hi - lo,
    {
        let mid: u128 = lo + (hi - lo) / 2;
        assert(mid * mid <= 0xFFFF_FFFF_FFFF_FFFFint * 0xFFFF_FFFF_FFFF_FFFFint) by (nonlinear_arith)
            requires
                0 <= mid <= 0xFFFF_FFFF_FFFF_FFFFint,
        ;
        assert(0xFFFF_FFFF_FFFF_FFFFint * 0xFFFF_FFFF_FFFF_FFFFint <= u128::MAX);
        if mid * mid <= n {
            lo = mid;
        } else {
            hi = mid;
        }
    }
    proof {
        lemma_floor_sqrt_unique(lo as nat, n as nat);
    }
    lo as u64
}

} // verus!
