//! Return-based volatility and price-band statistics over a feed's bounded
//! history.
//!
//! Period returns are `(p[i+1] - p[i]) * 10000 / p[i]` basis points with
//! truncating division; volatility is the floor square root of the sample
//! variance of those returns.  All of it is deterministic integer
//! arithmetic: any overflow, and a return over a zero price, is a reported
//! `ArithmeticError`, never a panic or a silent wrap.

use vstd::prelude::*;

use crate::errors::OracleError;
use crate::feed::BollingerBands;
use crate::feed::PRICE_HISTORY_CAPACITY;
use crate::feed::VolatilityMetrics;
use crate::math::is_floor_sqrt;
use crate::math::isqrt_u128;
use crate::math::lemma_div_bound;
use crate::math::lemma_div_le_dividend;
use crate::math::sum_int;
use crate::math::sum_u64;
use crate::math::trunc_div;

verus! {

/// The largest magnitude a basis-point return can have.
pub open spec fn max_return_magnitude() -> int {
    0xffff_ffff_ffff_ffffu64 * 10000
}

/// The period return from `prev` to `cur`, in basis points, with truncating
/// division.  Meaningful only for `prev > 0`.
pub open spec fn return_bp(prev: u64, cur: u64) -> int {
    if cur >= prev {
        (cur - prev) * 10000 / (prev as int)
    } else {
        -((prev - cur) * 10000 / (prev as int))
    }
}

/// The period returns of a price sequence: one per consecutive pair.
pub open spec fn returns_of(ps: Seq<u64>) -> Seq<int> {
    if ps.len() == 0 {
        Seq::empty()
    } else {
        Seq::new((ps.len() - 1) as nat, |i: int| return_bp(ps[i], ps[i + 1]))
    }
}

/// Whether some price other than the last is zero, which would make the
/// return over it a division by zero.
pub open spec fn has_zero_base(ps: Seq<u64>) -> bool {
    exists|i: int| 0 <= i < ps.len() - 1 && ps[i] == 0
}

/// The mean of the returns, with truncating division.  Meaningful only when
/// at least one return exists.
pub open spec fn mean_return(ps: Seq<u64>) -> int {
    trunc_div(sum_int(returns_of(ps)), returns_of(ps).len() as int)
}

/// The sum of squared deviations of a sequence from `mean`.
pub open spec fn sq_dev_sum(rs: Seq<int>, mean: int) -> int
    decreases rs.len(),
{
    if rs.len() == 0 {
        0
    } else {
        sq_dev_sum(rs.drop_last(), mean) + (rs.last() - mean) * (rs.last() - mean)
    }
}

/// The sample variance of the returns (dividing by `n - 1`).  Meaningful
/// only with at least two returns.
pub open spec fn return_variance(ps: Seq<u64>) -> int {
    sq_dev_sum(returns_of(ps), mean_return(ps)) / (returns_of(ps).len() - 1)
}

/// Whether the squared-deviation sum of the returns exceeds what a `u128`
/// can hold, which aborts the computation.
pub open spec fn volatility_overflow(ps: Seq<u64>) -> bool {
    sq_dev_sum(returns_of(ps), mean_return(ps)) > u128::MAX
}

/// What a recomputation of the volatility must yield: unchanged while fewer
/// than two returns exist, otherwise the floor square root of the sample
/// variance of the returns.
pub open spec fn volatility_update_ok(ps: Seq<u64>, old_vol: u64, new_vol: u64) -> bool {
    if ps.len() < 3 {
        new_vol == old_vol
    } else {
        is_floor_sqrt(new_vol as int, return_variance(ps))
    }
}

/// A squared-deviation sum is never negative.
pub proof fn lemma_sq_dev_sum_nonneg(rs: Seq<int>, mean: int)
    ensures
        0 <= sq_dev_sum(rs, mean),
    decreases rs.len(),
{
    if rs.len() > 0 {
        lemma_sq_dev_sum_nonneg(rs.drop_last(), mean);
        let d = rs.last() - mean;
        assert(0 <= d * d) by (nonlinear_arith);
    }
}

/// A prefix's squared-deviation sum never exceeds the whole sequence's.
pub proof fn lemma_sq_dev_sum_prefix(rs: Seq<int>, mean: int, j: int)
    requires
        0 <= j <= rs.len(),
    ensures
        sq_dev_sum(rs.subrange(0, j), mean) <= sq_dev_sum(rs, mean),
    decreases rs.len() - j,
{
    if j == rs.len() {
        assert(rs.subrange(0, j) =~= rs);
    } else {
        lemma_sq_dev_sum_prefix(rs, mean, j + 1);
        let pre = rs.subrange(0, j + 1);
        assert(pre.drop_last() =~= rs.subrange(0, j));
        let d = pre.last() - mean;
        assert(0 <= d * d) by (nonlinear_arith);
    }
}

/// Computes the basis-point returns of a price sequence.  Fails with
/// `ArithmeticError` exactly when a price other than the last is zero.
fn compute_returns(ps: &Vec<u64>) -> (r: Result<Vec<i128>, OracleError>)
    ensures
        match r {
            Ok(rts) => {
                &&& !has_zero_base(ps@)
                &&& rts@.len() == returns_of(ps@).len()
                &&& forall|j: int| 0 <= j < rts@.len() ==> rts@[j] == returns_of(ps@)[j]
                &&& forall|j: int|
                    0 <= j < rts@.len()
                        ==> -max_return_magnitude() <= #[trigger] rts@[j]
                            <= max_return_magnitude()
            },
            Err(e) => e == OracleError::ArithmeticError && has_zero_base(ps@),
        },
{
    let mut rts: Vec<i128> = Vec::new();
    if ps.len() == 0 {
        return Ok(rts);
    }
    let mut i: usize = 1;
    while i < ps.len()
        invariant
            1 <= i <= ps@.len(),
            rts@.len() == i - 1,
            forall|j: int| 0 <= j < i - 1 ==> ps@[j] != 0,
            forall|j: int| 0 <= j < i - 1 ==> rts@[j] == return_bp(ps@[j], ps@[j + 1]),
            forall|j: int|
                0 <= j < i - 1 ==> -max_return_magnitude() <= #[trigger] rts@[j]
                    <= max_return_magnitude(),
        decreases ps@.len() - i,
    {
        let prev = ps[i - 1];
        let cur = ps[i];
        if prev == 0 {
            assert(has_zero_base(ps@));
            return Err(OracleError::ArithmeticError);
        }
        let diff = if cur >= prev {
            cur - prev
        } else {
            prev - cur
        };
        let scaled = (diff as u128) * 10000;
        let mag = scaled / (prev as u128);
        proof {
            lemma_div_le_dividend(scaled as int, prev as int);
        }
        let ret: i128 = if cur >= prev {
            mag as i128
        } else {
            -(mag as i128)
        };
        rts.push(ret);
        i = i + 1;
    }
    proof {
        assert(!has_zero_base(ps@));
    }
    Ok(rts)
}

/// Recomputes a feed's volatility from its history's prices.
///
/// With fewer than two returns the statistic is left at `old_vol`;
/// otherwise the result is the floor square root of the sample variance of
/// the returns.  Fails with `ArithmeticError` exactly when a return's base
/// price is zero or the squared-deviation sum overflows.
pub fn volatility_from_prices(ps: &Vec<u64>, old_vol: u64) -> (r: Result<u64, OracleError>)
    requires
        ps@.len() <= PRICE_HISTORY_CAPACITY,
    ensures
        match r {
            Ok(v) => {
                &&& !(ps@.len() >= 2 && has_zero_base(ps@))
                &&& !(ps@.len() >= 3 && volatility_overflow(ps@))
                &&& volatility_update_ok(ps@, old_vol, v)
            },
            Err(e) => {
                &&& e == OracleError::ArithmeticError
                &&& (ps@.len() >= 2 && has_zero_base(ps@)) || (ps@.len() >= 3 && !has_zero_base(
                    ps@) && volatility_overflow(ps@))
            },
        },
{
    if ps.len() < 2 {
        return Ok(old_vol);
    }
    let rts = match compute_returns(ps) {
        Ok(rts) => rts,
        Err(e) => {
            return Err(e);
        },
    };
    if rts.len() < 2 {
        return Ok(old_vol);
    }
    let n = rts.len();
    let ghost rseq = Seq::new(rts@.len(), |t: int| rts@[t] as int);
    proof {
        assert(forall|t: int| 0 <= t < rseq.len() ==> rseq[t] == returns_of(ps@)[t]);
        assert(rseq =~= returns_of(ps@));
    }

    // Sum of returns; bounded by the history capacity times the largest
    // return magnitude, so it cannot overflow an i128.
    let mut acc: i128 = 0;
    let mut j: usize = 0;
    while j < n
        invariant
            0 <= j <= n,
            n == rts@.len(),
            rts@.len() <= PRICE_HISTORY_CAPACITY,
            rseq == Seq::new(rts@.len(), |t: int| rts@[t] as int),
            forall|k: int|
                0 <= k < rts@.len()
                    ==> -max_return_magnitude() <= #[trigger] rts@[k]
                    <= max_return_magnitude(),
            acc == sum_int(rseq.subrange(0, j as int)),
            -(j as int) * 184467440737095516150000 <= acc <= (j as int)
                * 184467440737095516150000,
        decreases n - j,
    {
        proof {
            assert(rseq.subrange(0, j + 1 as int).drop_last() =~= rseq.subrange(0, j as int));
            assert(rseq.subrange(0, j + 1 as int).last() == rts@[j as int] as int);
            assert(max_return_magnitude() == 184467440737095516150000int);
            assert(-184467440737095516150000 <= rts@[j as int] <= 184467440737095516150000);
        }
        acc = acc + rts[j];
        j = j + 1;
    }
    proof {
        assert(rseq.subrange(0, n as int) =~= rseq);
    }

    // Truncating mean of the returns.
    let sum_mag: u128 = if acc >= 0 {
        acc as u128
    } else {
        (-acc) as u128
    };
    let mean_mag = sum_mag / (n as u128);
    proof {
        lemma_div_le_dividend(sum_mag as int, n as int);
        lemma_div_bound(sum_mag as int, n as int, max_return_magnitude());
    }
    let mean: i128 = if acc >= 0 {
        mean_mag as i128
    } else {
        -(mean_mag as i128)
    };
    proof {
        assert(mean == mean_return(ps@));
    }

    // Sum of squared deviations, with explicit overflow checks.
    let mut acc2: u128 = 0;
    let mut k: usize = 0;
    while k < n
        invariant
            0 <= k <= n,
            n == rts@.len(),
            2 <= n,
            rts@.len() <= PRICE_HISTORY_CAPACITY,
            forall|t: int|
                0 <= t < rts@.len()
                    ==> -max_return_magnitude() <= #[trigger] rts@[t]
                    <= max_return_magnitude(),
            -max_return_magnitude() <= mean <= max_return_magnitude(),
            rseq == Seq::new(rts@.len(), |t: int| rts@[t] as int),
            rseq == returns_of(ps@),
            (mean as int) == mean_return(ps@),
            !has_zero_base(ps@),
            ps@.len() == n + 1,
            acc2 == sq_dev_sum(rseq.subrange(0, k as int), mean as int),
        decreases n - k,
    {
        let d: i128 = rts[k] - mean;
        let dmag: u128 = if d >= 0 {
            d as u128
        } else {
            (-d) as u128
        };
        let ghost di = rseq[k as int] - (mean as int);
        proof {
            assert(rseq[k as int] == rts@[k as int] as int);
            assert(dmag as int == if di >= 0 {
                di
            } else {
                -di
            });
            assert((dmag as int) * (dmag as int) == di * di) by (nonlinear_arith)
                requires
                    (dmag as int) == if di >= 0 {
                        di
                    } else {
                        -di
                    },
            ;
        }
        let sq = match dmag.checked_mul(dmag) {
            Some(sq) => sq,
            None => {
                proof {
                    overflow_from_partial(rseq, mean as int, k as int, acc2 as int);
                }
                return Err(OracleError::ArithmeticError);
            },
        };
        let acc2_next = match acc2.checked_add(sq) {
            Some(v) => v,
            None => {
                proof {
                    overflow_from_partial(rseq, mean as int, k as int, acc2 as int);
                }
                return Err(OracleError::ArithmeticError);
            },
        };
        proof {
            assert(rseq.subrange(0, k + 1 as int).drop_last() =~= rseq.subrange(0, k as int));
        }
        acc2 = acc2_next;
        k = k + 1;
    }
    proof {
        assert(rseq.subrange(0, n as int) =~= rseq);
        lemma_sq_dev_sum_nonneg(rseq, mean as int);
    }
    let variance = acc2 / ((n - 1) as u128);
    let vol = isqrt_u128(variance);
    Ok(vol)
}

/// If the squared deviation at `k` cannot be added to the partial sum
/// without exceeding `u128::MAX`, the whole squared-deviation sum exceeds
/// it too.
proof fn overflow_from_partial(rseq: Seq<int>, mean: int, k: int, partial: int)
    requires
        0 <= k < rseq.len(),
        partial == sq_dev_sum(rseq.subrange(0, k), mean),
        partial + (rseq[k] - mean) * (rseq[k] - mean) > u128::MAX,
    ensures
        sq_dev_sum(rseq, mean) > u128::MAX,
{
    assert(rseq.subrange(0, k + 1).drop_last() =~= rseq.subrange(0, k));
    assert(rseq.subrange(0, k + 1).last() == rseq[k]);
    lemma_sq_dev_sum_prefix(rseq, mean, k + 1);
}

/// The mean of a price sequence.  Meaningful only for a non-empty one.
pub open spec fn price_mean(ps: Seq<u64>) -> int {
    sum_u64(ps) / (ps.len() as int)
}

/// The sum of squared deviations of the prices from `mean`.
pub open spec fn price_sq_dev_sum(ps: Seq<u64>, mean: int) -> int
    decreases ps.len(),
{
    if ps.len() == 0 {
        0
    } else {
        price_sq_dev_sum(ps.drop_last(), mean) + (ps.last() - mean) * (ps.last() - mean)
    }
}

/// The sample variance of the prices.  Meaningful only for two or more.
pub open spec fn price_variance(ps: Seq<u64>) -> int {
    price_sq_dev_sum(ps, price_mean(ps)) / (ps.len() - 1)
}

/// Whether the squared-deviation sum of the prices exceeds what a `u128`
/// can hold.
pub open spec fn metrics_overflow(ps: Seq<u64>) -> bool {
    price_sq_dev_sum(ps, price_mean(ps)) > u128::MAX
}

/// What correctly recomputed bands look like: middle is the price mean, the
/// outer bands sit two standard deviations away, clamped to the `u64`
/// range.
pub open spec fn bands_ok(ps: Seq<u64>, b: BollingerBands) -> bool {
    let mean = price_mean(ps);
    exists|sd: int|
        {
            &&& #[trigger] is_floor_sqrt(sd, price_variance(ps))
            &&& b.middle == mean
            &&& b.upper == if mean + 2 * sd > u64::MAX {
                u64::MAX as int
            } else {
                mean + 2 * sd
            }
            &&& b.lower == if mean - 2 * sd < 0 {
                0
            } else {
                mean - 2 * sd
            }
        }
}

/// A prefix's squared price deviation sum never exceeds the whole one.
proof fn lemma_price_sq_dev_sum_prefix(ps: Seq<u64>, mean: int, j: int)
    requires
        0 <= j <= ps.len(),
    ensures
        price_sq_dev_sum(ps.subrange(0, j), mean) <= price_sq_dev_sum(ps, mean),
    decreases ps.len() - j,
{
    if j == ps.len() {
        assert(ps.subrange(0, j) =~= ps);
    } else {
        lemma_price_sq_dev_sum_prefix(ps, mean, j + 1);
        let pre = ps.subrange(0, j + 1);
        assert(pre.drop_last() =~= ps.subrange(0, j));
        let d = pre.last() - mean;
        assert(0 <= d * d) by (nonlinear_arith);
    }
}

/// Recomputes the band metrics from the history's prices, stamping `now`.
/// Fails with `ArithmeticError` exactly when the squared-deviation sum
/// overflows.
pub fn metrics_from_prices(ps: &Vec<u64>, now: i64) -> (r: Result<
    VolatilityMetrics,
    OracleError,
>)
    requires
        2 <= ps@.len() <= PRICE_HISTORY_CAPACITY,
    ensures
        match r {
            Ok(m) => {
                &&& !metrics_overflow(ps@)
                &&& bands_ok(ps@, m.bollinger_bands)
                &&& m.last_calculation == now
            },
            Err(e) => e == OracleError::ArithmeticError && metrics_overflow(ps@),
        },
{
    let n = ps.len();

    // Mean price; the sum of at most the capacity's worth of u64 values
    // fits comfortably in a u128.
    let mut sum: u128 = 0;
    let mut i: usize = 0;
    while i < n
        invariant
            0 <= i <= n,
            n == ps@.len(),
            ps@.len() <= PRICE_HISTORY_CAPACITY,
            sum == sum_u64(ps@.subrange(0, i as int)),
            sum <= (i as int) * 0xffff_ffff_ffff_ffffu64,
        decreases n - i,
    {
        proof {
            assert(ps@.subrange(0, i + 1 as int).drop_last() =~= ps@.subrange(0, i as int));
            assert((i + 1 as int) * 0xffff_ffff_ffff_ffffu64 == (i as int)
                * 0xffff_ffff_ffff_ffffu64 + 0xffff_ffff_ffff_ffffu64) by (nonlinear_arith);
        }
        sum = sum + (ps[i] as u128);
        i = i + 1;
    }
    proof {
        assert(ps@.subrange(0, n as int) =~= ps@);
        lemma_div_bound(sum as int, n as int, 0xffff_ffff_ffff_ffffu64 as int);
        lemma_div_le_dividend(sum as int, n as int);
    }
    let mean_wide = sum / (n as u128);
    let mean = mean_wide as u64;

    // Sum of squared deviations of the prices from the mean.
    let mut acc2: u128 = 0;
    let mut k: usize = 0;
    while k < n
        invariant
            0 <= k <= n,
            n == ps@.len(),
            ps@.len() <= PRICE_HISTORY_CAPACITY,
            mean == price_mean(ps@),
            acc2 == price_sq_dev_sum(ps@.subrange(0, k as int), mean as int),
        decreases n - k,
    {
        let p = ps[k];
        let dmag: u128 = if p >= mean {
            (p - mean) as u128
        } else {
            (mean - p) as u128
        };
        proof {
            assert(dmag * dmag <= u128::MAX) by (nonlinear_arith)
                requires
                    dmag <= 0xffff_ffff_ffff_ffffu64,
            ;
            assert(dmag * dmag == (ps@[k as int] - mean as int) * (ps@[k as int] - mean as int))
                by (nonlinear_arith)
                requires
                    dmag == if ps@[k as int] >= mean {
                        ps@[k as int] - mean as int
                    } else {
                        mean as int - ps@[k as int]
                    },
            ;
        }
        let sq = dmag * dmag;
        let acc2_next = match acc2.checked_add(sq) {
            Some(v) => v,
            None => {
                proof {
                    let pre = ps@.subrange(0, k + 1 as int);
                    assert(pre.drop_last() =~= ps@.subrange(0, k as int));
                    assert(pre.last() == ps@[k as int]);
                    lemma_price_sq_dev_sum_prefix(ps@, mean as int, k + 1 as int);
                }
                return Err(OracleError::ArithmeticError);
            },
        };
        proof {
            assert(ps@.subrange(0, k + 1 as int).drop_last() =~= ps@.subrange(0, k as int));
        }
        acc2 = acc2_next;
        k = k + 1;
    }
    proof {
        assert(ps@.subrange(0, n as int) =~= ps@);
    }
    let variance = acc2 / ((n - 1) as u128);
    let sd = isqrt_u128(variance);

    // Bands two standard deviations around the mean, clamped to u64.
    let upper_wide = (mean as u128) + 2 * (sd as u128);
    let upper = if upper_wide > u64::MAX as u128 {
        u64::MAX
    } else {
        upper_wide as u64
    };
    let lower = if 2 * (sd as u128) > mean as u128 {
        0
    } else {
        mean - 2 * sd
    };
    let bands = BollingerBands { upper, middle: mean, lower };
    proof {
        assert(is_floor_sqrt(sd as int, price_variance(ps@)));
        assert(bands_ok(ps@, bands));
    }
    Ok(VolatilityMetrics { bollinger_bands: bands, last_calculation: now })
}

} // verus!
