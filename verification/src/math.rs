//! Shared integer arithmetic: basis-point changes, truncating signed
//! division, sums over sequences, and a deterministic integer square root.
//!
//! Everything here is fixed-point integer arithmetic so that results are
//! bit-reproducible across execution environments.

use vstd::prelude::*;

verus! {

/// The absolute difference of two prices, as a mathematical integer.
pub open spec fn abs_diff(a: u64, b: u64) -> int {
    if a >= b {
        a - b
    } else {
        b - a
    }
}

/// The distance of `candidate` from `base`, in basis points of `base`
/// (10000 = 100%).  Meaningful only for `base > 0`.
pub open spec fn change_bp(candidate: u64, base: u64) -> int {
    abs_diff(candidate, base) * 10000 / (base as int)
}

/// Truncating (round-toward-zero) signed division, for `b > 0`; matches what
/// hardware signed division computes, unlike the euclidean `/` of
/// specifications.
pub open spec fn trunc_div(a: int, b: int) -> int {
    if a >= 0 {
        a / b
    } else {
        -((-a) / b)
    }
}

/// `r` is the floor of the square root of `v`.  For `v >= 0` exactly one
/// integer satisfies this, so it pins `r` down.
pub open spec fn is_floor_sqrt(r: int, v: int) -> bool {
    0 <= r && r * r <= v && v < (r + 1) * (r + 1)
}

/// The sum of a sequence of mathematical integers.
pub open spec fn sum_int(s: Seq<int>) -> int
    decreases s.len(),
{
    if s.len() == 0 {
        0
    } else {
        sum_int(s.drop_last()) + s.last()
    }
}

/// The sum of a sequence of prices or weights.
pub open spec fn sum_u64(s: Seq<u64>) -> int
    decreases s.len(),
{
    if s.len() == 0 {
        0
    } else {
        sum_u64(s.drop_last()) + s.last()
    }
}

/// The largest element of a non-empty sequence (0 for an empty one).
pub open spec fn seq_max(s: Seq<u64>) -> u64
    decreases s.len(),
{
    if s.len() == 0 {
        0
    } else if s.len() == 1 {
        s[0]
    } else {
        let m = seq_max(s.drop_last());
        if s.last() > m {
            s.last()
        } else {
            m
        }
    }
}

/// The smallest element of a non-empty sequence (0 for an empty one).
pub open spec fn seq_min(s: Seq<u64>) -> u64
    decreases s.len(),
{
    if s.len() == 0 {
        0
    } else if s.len() == 1 {
        s[0]
    } else {
        let m = seq_min(s.drop_last());
        if s.last() < m {
            s.last()
        } else {
            m
        }
    }
}

/// A quotient is bounded by `c` whenever the dividend is bounded by `b * c`.
pub proof fn lemma_div_bound(a: int, b: int, c: int)
    requires
        b >= 1,
        0 <= a,
        a <= b * c,
    ensures
        a / b <= c,
{
    assert(a / b <= c) by (nonlinear_arith)
        requires
            b >= 1,
            0 <= a,
            a <= b * c,
    ;
}

/// Dividing a non-negative integer by a positive one never increases it.
pub proof fn lemma_div_le_dividend(a: int, b: int)
    requires
        0 <= a,
        1 <= b,
    ensures
        0 <= a / b <= a,
{
    assert(0 <= a / b <= a) by (nonlinear_arith)
        requires
            0 <= a,
            1 <= b,
    ;
}

/// Executable absolute difference.
pub fn abs_diff_u64(a: u64, b: u64) -> (r: u64)
    ensures
        r == abs_diff(a, b),
{
    if a >= b {
        a - b
    } else {
        b - a
    }
}

/// Executable basis-point change of `candidate` relative to `base`.
pub fn change_bp_u128(candidate: u64, base: u64) -> (r: u128)
    requires
        base > 0,
    ensures
        r == change_bp(candidate, base),
{
    let diff = abs_diff_u64(candidate, base);
    (diff as u128) * 10000 / (base as u128)
}

/// Deterministic floor square root of a `u128`, by binary search on the
/// 64-bit result range.
pub fn isqrt_u128(v: u128) -> (r: u64)
    ensures
        is_floor_sqrt(r as int, v as int),
{
    let mut lo: u64 = 0;
    let mut hi: u64 = u64::MAX;
    proof {
        assert((hi as int + 1) * (hi as int + 1) > v as int) by (nonlinear_arith)
            requires
                hi == u64::MAX,
                v <= u128::MAX,
        ;
    }
    while lo < hi
        invariant
            lo <= hi,
            (lo as int) * (lo as int) <= v as int,
            (v as int) < (hi as int + 1) * (hi as int + 1),
        decreases hi - lo,
    {
        let mid = lo + (hi - lo) / 2 + 1;
        proof {
            assert((mid as u128) * (mid as u128) <= u128::MAX) by (nonlinear_arith)
                requires
                    mid <= u64::MAX,
            ;
        }
        let sq = (mid as u128) * (mid as u128);
        if sq <= v {
            lo = mid;
        } else {
            hi = mid - 1;
        }
    }
    lo
}

} // verus!
