//! Time-weighted average prices: the O(1) exponential smoothing applied on
//! every ingestion, and the on-demand windowed weighted TWAP over a feed's
//! bounded history.

use vstd::prelude::*;

use crate::errors::OracleError;
use crate::feed::PRICE_HISTORY_CAPACITY;
use crate::feed::PricePoint;
use crate::math::lemma_div_bound;

verus! {

/// The fixed-weight exponential smoothing applied on every committed
/// update: `(3 * twap + price) / 4`.  Always within the `u64` range.
pub open spec fn ema_spec(twap: u64, price: u64) -> int {
    (3 * twap + price) / 4
}

/// Whether a point is young enough for the window ending at `now`.
pub open spec fn in_window(p: PricePoint, now: i64, window: i64) -> bool {
    now - p.timestamp <= window
}

/// The linearly decaying weight of a point: the window size minus the
/// point's age.  Non-negative for points in the window.
pub open spec fn twap_weight(p: PricePoint, now: i64, window: i64) -> int {
    window - (now - p.timestamp)
}

/// Weighted price sum of the suffix of points in the window, walking the
/// history from the most recent point backward and stopping at the first
/// point older than the window.
pub open spec fn twap_wsum(h: Seq<PricePoint>, now: i64, window: i64) -> int
    decreases h.len(),
{
    if h.len() == 0 {
        0
    } else if !in_window(h.last(), now, window) {
        0
    } else {
        h.last().price * twap_weight(h.last(), now, window) + twap_wsum(
            h.drop_last(),
            now,
            window,
        )
    }
}

/// Total weight of the same suffix of points.
pub open spec fn twap_wtotal(h: Seq<PricePoint>, now: i64, window: i64) -> int
    decreases h.len(),
{
    if h.len() == 0 {
        0
    } else if !in_window(h.last(), now, window) {
        0
    } else {
        twap_weight(h.last(), now, window) + twap_wtotal(h.drop_last(), now, window)
    }
}

/// Both windowed sums are non-negative.
pub proof fn lemma_twap_sums_nonneg(h: Seq<PricePoint>, now: i64, window: i64)
    ensures
        0 <= twap_wsum(h, now, window),
        0 <= twap_wtotal(h, now, window),
    decreases h.len(),
{
    if h.len() > 0 && in_window(h.last(), now, window) {
        lemma_twap_sums_nonneg(h.drop_last(), now, window);
        assert(0 <= h.last().price * twap_weight(h.last(), now, window)) by (nonlinear_arith)
            requires
                0 <= h.last().price,
                0 <= twap_weight(h.last(), now, window),
        ;
    }
}

/// The weighted sum is bounded by the total weight times the largest
/// representable price, so the weighted average fits a `u64`.
pub proof fn lemma_twap_wsum_bound(h: Seq<PricePoint>, now: i64, window: i64)
    ensures
        twap_wsum(h, now, window) <= twap_wtotal(h, now, window) * 0xffff_ffff_ffff_ffffu64,
    decreases h.len(),
{
    if h.len() > 0 && in_window(h.last(), now, window) {
        lemma_twap_wsum_bound(h.drop_last(), now, window);
        let w = twap_weight(h.last(), now, window);
        let t = twap_wtotal(h.drop_last(), now, window);
        assert(h.last().price * w <= 0xffff_ffff_ffff_ffffu64 * w) by (nonlinear_arith)
            requires
                h.last().price <= 0xffff_ffff_ffff_ffffu64,
                0 <= w,
        ;
        assert((w + t) * 0xffff_ffff_ffff_ffffu64 == w * 0xffff_ffff_ffff_ffffu64 + t
            * 0xffff_ffff_ffff_ffffu64) by (nonlinear_arith);
        assert(w * 0xffff_ffff_ffff_ffffu64 == 0xffff_ffff_ffff_ffffu64 * w)
            by (nonlinear_arith);
    }
}

/// Computes the windowed weighted TWAP over a bounded history: each point
/// in the window weighted by `window - age`, most recent first, stopping
/// at the first point outside the window.  An empty window is a reported
/// failure, as is a weighted sum beyond what a `u128` holds.
pub fn windowed_twap(h: &Vec<PricePoint>, now: i64, window: i64) -> (r: Result<u64, OracleError>)
    requires
        h@.len() <= PRICE_HISTORY_CAPACITY,
    ensures
        match r {
            Ok(v) => {
                &&& twap_wtotal(h@, now, window) != 0
                &&& twap_wsum(h@, now, window) <= u128::MAX
                &&& v == twap_wsum(h@, now, window) / twap_wtotal(h@, now, window)
            },
            Err(e) => {
                &&& e == OracleError::ArithmeticError
                &&& (twap_wtotal(h@, now, window) == 0 || twap_wsum(h@, now, window)
                    > u128::MAX)
            },
        },
{
    let mut i: usize = h.len();
    let mut sum: u128 = 0;
    let mut total: u128 = 0;
    proof {
        assert(h@.subrange(0, h@.len() as int) =~= h@);
    }
    while i > 0
        invariant_except_break
            0 <= i <= h@.len(),
            h@.len() <= PRICE_HISTORY_CAPACITY,
            twap_wsum(h@, now, window) == sum + twap_wsum(
                h@.subrange(0, i as int),
                now,
                window,
            ),
            twap_wtotal(h@, now, window) == total + twap_wtotal(
                h@.subrange(0, i as int),
                now,
                window,
            ),
            total <= ((h@.len() - i) as int) * 0x2_0000_0000_0000_0000u128,
        ensures
            sum == twap_wsum(h@, now, window),
            total == twap_wtotal(h@, now, window),
        decreases i,
    {
        let point = h[i - 1];
        proof {
            assert(h@.subrange(0, i as int).last() == h@[i - 1]);
            assert(h@.subrange(0, i as int).drop_last() =~= h@.subrange(0, i - 1));
        }
        let age = (now as i128) - (point.timestamp as i128);
        if age > window as i128 {
            proof {
                assert(twap_wsum(h@.subrange(0, i as int), now, window) == 0);
                assert(twap_wtotal(h@.subrange(0, i as int), now, window) == 0);
            }
            break;
        }
        let w = (window as i128) - age;
        let term = match (point.price as u128).checked_mul(w as u128) {
            Some(t) => t,
            None => {
                proof {
                    lemma_twap_sums_nonneg(h@.subrange(0, i - 1), now, window);
                }
                return Err(OracleError::ArithmeticError);
            },
        };
        let sum_next = match sum.checked_add(term) {
            Some(s) => s,
            None => {
                proof {
                    lemma_twap_sums_nonneg(h@.subrange(0, i - 1), now, window);
                }
                return Err(OracleError::ArithmeticError);
            },
        };
        sum = sum_next;
        total = total + (w as u128);
        i = i - 1;
    }
    if total == 0 {
        return Err(OracleError::ArithmeticError);
    }
    proof {
        lemma_twap_wsum_bound(h@, now, window);
        lemma_div_bound(sum as int, total as int, 0xffff_ffff_ffff_ffffu64 as int);
    }
    Ok((sum / total) as u64)
}

} // verus!
