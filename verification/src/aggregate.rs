//! The aggregation engine: combines positionally aligned source readings
//! `(price, confidence_or_volume, source)` into one consensus price under a
//! selectable strategy, with a quorum precondition and a spread guard over
//! the raw readings.

use vstd::prelude::*;

use crate::errors::OracleError;
use crate::math::lemma_div_bound;
use crate::math::lemma_div_le_dividend;
use crate::math::seq_max;
use crate::math::seq_min;
use crate::math::sum_u64;
use crate::sort::lemma_sort_pairs_spec_len;
use crate::sort::lemma_sort_spec_len;
use crate::sort::sort_pairs;
use crate::sort::sort_pairs_spec;
use crate::sort::sort_spec;
use crate::sort::sort_u64;
use crate::source::AggregationMethod;
use crate::source::PriceSource;

verus! {

/// One source reading handed to an aggregation call: price, the reporter's
/// confidence (or trade volume, for volume weighting), and provenance.
pub type Reading = (u64, u64, PriceSource);

/// How one aggregation call combines its readings.
#[derive(Clone, Debug)]
pub struct AggregationStrategy {
    pub method: AggregationMethod,
    /// Quorum: fewer valid readings than this fail the call.
    pub min_valid_sources: u8,
    /// Largest allowed spread between the raw readings.
    pub max_deviation: u64,
    /// Weights aligned positionally with the readings.
    pub weights: Vec<u64>,
    /// For trimmed means, the per-tail trim fraction in basis points; for
    /// outlier adjustment, the largest allowed distance from the mean.
    pub outlier_threshold: u64,
}

/// The prices of a list of readings, in order.
pub open spec fn reading_prices(rs: Seq<Reading>) -> Seq<u64> {
    rs.map_values(|r: Reading| r.0)
}

/// The confidence-or-volume column of a list of readings, in order.
pub open spec fn reading_weights(rs: Seq<Reading>) -> Seq<u64> {
    rs.map_values(|r: Reading| r.1)
}

/// Sum of `ps[i] * ws[i]` over the first `n` positions.
pub open spec fn wsum_upto(ps: Seq<u64>, ws: Seq<u64>, n: int) -> int
    decreases n,
{
    if n <= 0 {
        0
    } else {
        wsum_upto(ps, ws, n - 1) + ps[n - 1] * ws[n - 1]
    }
}

/// Sum of `ws[i]` over the first `n` positions.
pub open spec fn wtotal_upto(ws: Seq<u64>, n: int) -> int
    decreases n,
{
    if n <= 0 {
        0
    } else {
        wtotal_upto(ws, n - 1) + ws[n - 1]
    }
}

/// How many positions a weighted combination uses: readings and weights are
/// zipped, so the shorter list decides.
pub open spec fn zip_len(ps: Seq<u64>, ws: Seq<u64>) -> int {
    if ps.len() <= ws.len() {
        ps.len() as int
    } else {
        ws.len() as int
    }
}

/// The weighted average `sum(p*w) / sum(w)` over the zipped positions.
/// Fails when the weights sum to zero or a sum exceeds what a `u128` holds.
pub open spec fn weighted_average_spec(ps: Seq<u64>, ws: Seq<u64>) -> Result<u64, OracleError> {
    let n = zip_len(ps, ws);
    let total = wtotal_upto(ws, n);
    let sum = wsum_upto(ps, ws, n);
    if total == 0 || total > u128::MAX || sum > u128::MAX {
        Err(OracleError::ArithmeticError)
    } else {
        Ok((sum / total) as u64)
    }
}

/// Partial weighted sums grow with `n`.
proof fn lemma_wsum_upto_mono(ps: Seq<u64>, ws: Seq<u64>, n1: int, n2: int)
    requires
        0 <= n1 <= n2,
        n2 <= ps.len(),
        n2 <= ws.len(),
    ensures
        wsum_upto(ps, ws, n1) <= wsum_upto(ps, ws, n2),
    decreases n2 - n1,
{
    if n1 < n2 {
        lemma_wsum_upto_mono(ps, ws, n1, n2 - 1);
        assert(0 <= ps[n2 - 1] * ws[n2 - 1]) by (nonlinear_arith);
    }
}

/// Partial weight totals grow with `n`.
proof fn lemma_wtotal_upto_mono(ws: Seq<u64>, n1: int, n2: int)
    requires
        0 <= n1 <= n2,
        n2 <= ws.len(),
    ensures
        wtotal_upto(ws, n1) <= wtotal_upto(ws, n2),
    decreases n2 - n1,
{
    if n1 < n2 {
        lemma_wtotal_upto_mono(ws, n1, n2 - 1);
    }
}

/// Computes the weighted average of the zipped prices and weights.
pub fn weighted_average(ps: &Vec<u64>, ws: &Vec<u64>) -> (r: Result<u64, OracleError>)
    ensures
        r == weighted_average_spec(ps@, ws@),
{
    let n = if ps.len() <= ws.len() {
        ps.len()
    } else {
        ws.len()
    };
    let mut sum: u128 = 0;
    let mut total: u128 = 0;
    let mut j: usize = 0;
    while j < n
        invariant
            0 <= j <= n,
            n == zip_len(ps@, ws@),
            n <= ps@.len(),
            n <= ws@.len(),
            sum == wsum_upto(ps@, ws@, j as int),
            total == wtotal_upto(ws@, j as int),
            sum <= total * 0xffff_ffff_ffff_ffffu64,
        decreases n - j,
    {
        let p = ps[j];
        let w = ws[j];
        proof {
            assert((p as u128) * (w as u128) <= u128::MAX) by (nonlinear_arith)
                requires
                    p <= 0xffff_ffff_ffff_ffffu64,
                    w <= 0xffff_ffff_ffff_ffffu64,
            ;
            assert((p as int) * (w as int) <= 0xffff_ffff_ffff_ffffu64 * (w as int))
                by (nonlinear_arith)
                requires
                    p <= 0xffff_ffff_ffff_ffffu64,
                    0 <= w,
            ;
            assert((total as int + w) * 0xffff_ffff_ffff_ffffu64 == total as int
                * 0xffff_ffff_ffff_ffffu64 + (w as int) * 0xffff_ffff_ffff_ffffu64)
                by (nonlinear_arith);
            assert((w as int) * 0xffff_ffff_ffff_ffffu64 == 0xffff_ffff_ffff_ffffu64 * (
            w as int)) by (nonlinear_arith);
        }
        let term = (p as u128) * (w as u128);
        let sum_next = match sum.checked_add(term) {
            Some(v) => v,
            None => {
                proof {
                    lemma_wsum_upto_mono(ps@, ws@, j + 1 as int, n as int);
                }
                return Err(OracleError::ArithmeticError);
            },
        };
        let total_next = match total.checked_add(w as u128) {
            Some(v) => v,
            None => {
                proof {
                    lemma_wtotal_upto_mono(ws@, j + 1 as int, n as int);
                }
                return Err(OracleError::ArithmeticError);
            },
        };
        sum = sum_next;
        total = total_next;
        j = j + 1;
    }
    if total == 0 {
        return Err(OracleError::ArithmeticError);
    }
    proof {
        lemma_div_bound(sum as int, total as int, 0xffff_ffff_ffff_ffffu64 as int);
        lemma_div_le_dividend(sum as int, total as int);
    }
    Ok((sum / total) as u64)
}

/// The element at index `len / 2` of the sorted prices: the upper median,
/// with no interpolation.  Meaningful only for a non-empty sequence.
pub open spec fn median_spec(ps: Seq<u64>) -> u64 {
    sort_spec(ps)[ps.len() as int / 2]
}

/// Sorts the prices and picks the upper median.
pub fn median(ps: &Vec<u64>) -> (r: u64)
    requires
        ps@.len() >= 1,
    ensures
        r == median_spec(ps@),
{
    let sorted = sort_u64(ps);
    proof {
        lemma_sort_spec_len(ps@);
    }
    sorted[ps.len() / 2]
}

/// Prices and weights zipped positionally into pairs.
pub open spec fn paired(ps: Seq<u64>, ws: Seq<u64>) -> Seq<(u64, u64)> {
    Seq::new(zip_len(ps, ws) as nat, |i: int| (ps[i], ws[i]))
}

/// Sum of the weights of the first `n` pairs.
pub open spec fn pair_wtotal(s: Seq<(u64, u64)>, n: int) -> int
    decreases n,
{
    if n <= 0 {
        0
    } else {
        pair_wtotal(s, n - 1) + s[n - 1].1
    }
}

/// Walking pairs sorted by price, the price at which the cumulative weight
/// first reaches at least half of `total` (having already accumulated
/// `acc`).
pub open spec fn wm_pick(s: Seq<(u64, u64)>, total: int, acc: int) -> u64
    decreases s.len(),
{
    if s.len() == 0 {
        0
    } else if 2 * (acc + s[0].1) >= total {
        s[0].0
    } else {
        wm_pick(s.drop_first(), total, acc + s[0].1)
    }
}

/// The weighted median: pairs sorted by price, first price whose cumulative
/// weight reaches half the total weight.  Meaningful only for at least one
/// zipped pair.
pub open spec fn weighted_median_spec(ps: Seq<u64>, ws: Seq<u64>) -> u64 {
    let s = sort_pairs_spec(paired(ps, ws));
    wm_pick(s, pair_wtotal(s, s.len() as int), 0)
}

/// Partial pair-weight totals grow with `n` and are never negative.
proof fn lemma_pair_wtotal_mono(s: Seq<(u64, u64)>, n1: int, n2: int)
    requires
        0 <= n1 <= n2,
        n2 <= s.len(),
    ensures
        0 <= pair_wtotal(s, n1) <= pair_wtotal(s, n2),
    decreases n1 + n2,
{
    if n1 > 0 {
        lemma_pair_wtotal_mono(s, n1 - 1, n1 - 1);
    }
    if n1 < n2 {
        lemma_pair_wtotal_mono(s, n1, n2 - 1);
    }
}

/// What remains of `wm_pick` after skipping a prefix whose cumulative
/// weight stayed under half the total.
proof fn lemma_wm_pick_skip(s: Seq<(u64, u64)>, total: int, i: int)
    requires
        0 <= i < s.len(),
        2 * pair_wtotal(s, i + 1) < total,
    ensures
        wm_pick(s.subrange(i, s.len() as int), total, pair_wtotal(s, i)) == wm_pick(
            s.subrange(i + 1, s.len() as int),
            total,
            pair_wtotal(s, i + 1),
        ),
{
    let suf = s.subrange(i, s.len() as int);
    assert(suf[0] == s[i]);
    assert(suf.drop_first() =~= s.subrange(i + 1, s.len() as int));
}

/// Computes the weighted median of the zipped prices and weights.
pub fn weighted_median(ps: &Vec<u64>, ws: &Vec<u64>) -> (r: u64)
    requires
        ps@.len() >= 1,
        ws@.len() >= 1,
    ensures
        r == weighted_median_spec(ps@, ws@),
{
    let n = if ps.len() <= ws.len() {
        ps.len()
    } else {
        ws.len()
    };
    let mut pairs: Vec<(u64, u64)> = Vec::new();
    let mut i: usize = 0;
    while i < n
        invariant
            0 <= i <= n,
            n == zip_len(ps@, ws@),
            n <= ps@.len(),
            n <= ws@.len(),
            pairs@.len() == i,
            forall|j: int| 0 <= j < i ==> pairs@[j] == (ps@[j], ws@[j]),
        decreases n - i,
    {
        pairs.push((ps[i], ws[i]));
        i = i + 1;
    }
    proof {
        assert(pairs@ =~= paired(ps@, ws@));
    }
    let sorted = sort_pairs(&pairs);
    proof {
        lemma_sort_pairs_spec_len(pairs@);
    }
    let m = sorted.len();

    // Total weight; a sum of fewer than 2^64 values each below 2^64 fits
    // in a u128.
    let mut total: u128 = 0;
    let mut k: usize = 0;
    while k < m
        invariant
            0 <= k <= m,
            m == sorted@.len(),
            total == pair_wtotal(sorted@, k as int),
            total <= (k as int) * 0xffff_ffff_ffff_ffffu64,
        decreases m - k,
    {
        total = total + (sorted[k].1 as u128);
        k = k + 1;
    }

    // Walk the sorted pairs until the cumulative weight reaches half the
    // total.  The comparison is written with a subtraction so it cannot
    // overflow.  The last pair always reaches the threshold, so it is
    // handled after the loop.
    let mut acc: u128 = 0;
    let mut t: usize = 0;
    proof {
        assert(sorted@.subrange(0, m as int) =~= sorted@);
    }
    while t < m - 1
        invariant
            0 <= t <= m - 1,
            m == sorted@.len(),
            1 <= m,
            sorted@ == sort_pairs_spec(paired(ps@, ws@)),
            total == pair_wtotal(sorted@, m as int),
            acc == pair_wtotal(sorted@, t as int),
            wm_pick(sorted@, total as int, 0) == wm_pick(
                sorted@.subrange(t as int, m as int),
                total as int,
                acc as int,
            ),
        decreases m - t,
    {
        proof {
            lemma_pair_wtotal_mono(sorted@, t + 1 as int, m as int);
        }
        let c = acc + (sorted[t].1 as u128);
        if c >= total - c {
            proof {
                assert(sorted@.subrange(t as int, m as int)[0] == sorted@[t as int]);
            }
            return sorted[t].0;
        }
        proof {
            lemma_wm_pick_skip(sorted@, total as int, t as int);
        }
        acc = c;
        t = t + 1;
    }
    proof {
        let suf = sorted@.subrange(m - 1, m as int);
        assert(suf[0] == sorted@[m - 1]);
        lemma_pair_wtotal_mono(sorted@, 0, m as int);
        assert(acc as int + sorted@[m - 1].1 == total as int);
    }
    sorted[m - 1].0
}

/// How many elements each tail loses: the trim fraction of the length, in
/// basis points, rounded down.
pub open spec fn trim_count(len: int, trim_bp: u64) -> int {
    len * trim_bp / 10000
}

/// The trimmed mean: sort, drop the trim fraction from each tail, average
/// the remainder.  Fails when trimming leaves nothing.
pub open spec fn trimmed_mean_spec(ps: Seq<u64>, trim_bp: u64) -> Result<u64, OracleError> {
    let len = ps.len() as int;
    let k = trim_count(len, trim_bp);
    if 2 * k >= len {
        Err(OracleError::InsufficientValidSources)
    } else {
        Ok((sum_u64(sort_spec(ps).subrange(k, len - k)) / (len - 2 * k)) as u64)
    }
}

/// Computes the trimmed mean of the prices.
pub fn trimmed_mean(ps: &Vec<u64>, trim_bp: u64) -> (r: Result<u64, OracleError>)
    requires
        ps@.len() >= 1,
    ensures
        r == trimmed_mean_spec(ps@, trim_bp),
{
    let len = ps.len();
    proof {
        assert((len as u128) * (trim_bp as u128) <= u128::MAX) by (nonlinear_arith)
            requires
                len <= 0xffff_ffff_ffff_ffffu64,
                trim_bp <= 0xffff_ffff_ffff_ffffu64,
        ;
    }
    let k_wide = (len as u128) * (trim_bp as u128) / 10000;
    if 2 * k_wide >= len as u128 {
        return Err(OracleError::InsufficientValidSources);
    }
    let k = k_wide as usize;
    let sorted = sort_u64(ps);
    proof {
        lemma_sort_spec_len(ps@);
    }
    let upper = len - k;
    let mut sum: u128 = 0;
    let mut i: usize = k;
    while i < upper
        invariant
            k <= i <= upper,
            upper == len - k,
            (k as int) == trim_count(len as int, trim_bp),
            2 * (k as int) < len as int,
            len == ps@.len(),
            sorted@ == sort_spec(ps@),
            sorted@.len() == len,
            sum == sum_u64(sorted@.subrange(k as int, i as int)),
            sum <= (i - k) * 0xffff_ffff_ffff_ffffu64,
        decreases upper - i,
    {
        proof {
            assert(sorted@.subrange(k as int, i + 1 as int).drop_last() =~= sorted@.subrange(
                k as int, i as int));
            assert(sorted@.subrange(k as int, i + 1 as int).last() == sorted@[i as int]);
        }
        sum = sum + (sorted[i] as u128);
        i = i + 1;
    }
    let count = upper - k;
    proof {
        lemma_div_bound(sum as int, count as int, 0xffff_ffff_ffff_ffffu64 as int);
    }
    Ok((sum / (count as u128)) as u64)
}

/// One step of the scalar Kalman estimator, in basis-point fixed point
/// (10000 = 1.0): measurement error from the reading's confidence, gain
/// from the running error estimate, then the estimate and error updated.
pub open spec fn kalman_step(est: int, err: int, meas: u64, conf: u64) -> (int, int) {
    let m = if conf >= 100 {
        0int
    } else {
        (100 - conf) * 100
    };
    let gain = err * 10000 / (err + m);
    let est2 = if meas >= est {
        est + gain * (meas - est) / 10000
    } else {
        est - gain * (est - meas) / 10000
    };
    let err2 = (10000 - gain) * err / 10000 + 1000;
    (est2, err2)
}

/// The estimator after folding in the readings up to index `i`: seeded
/// with the first reading's price and an error estimate of 1.0.
pub open spec fn kalman_rec(rs: Seq<Reading>, i: int) -> (int, int)
    decreases i,
{
    if i <= 0 {
        (rs[0].0 as int, 10000int)
    } else {
        let prev = kalman_rec(rs, i - 1);
        kalman_step(prev.0, prev.1, rs[i].0, rs[i].1)
    }
}

/// The Kalman estimate after all readings, processed in the order
/// supplied.  Meaningful only for at least one reading.
pub open spec fn kalman_spec(rs: Seq<Reading>) -> u64 {
    kalman_rec(rs, rs.len() - 1).0 as u64
}

/// Runs the fixed-point Kalman estimator over the readings in order.
pub fn apply_kalman_filter(readings: &Vec<Reading>) -> (r: u64)
    requires
        readings@.len() >= 1,
    ensures
        r == kalman_spec(readings@),
{
    let mut est: u64 = readings[0].0;
    let mut err: u128 = 10000;
    let mut i: usize = 1;
    while i < readings.len()
        invariant
            1 <= i <= readings@.len(),
            est as int == kalman_rec(readings@, i - 1).0,
            err as int == kalman_rec(readings@, i - 1).1,
            1000 <= err,
            err <= 10000 + 1000 * (i - 1),
        decreases readings@.len() - i,
    {
        let meas = readings[i].0;
        let conf = readings[i].1;
        let m: u128 = if conf >= 100 {
            0
        } else {
            ((100 - conf) as u128) * 100
        };
        let gain = err * 10000 / (err + m);
        proof {
            lemma_div_bound((err * 10000) as int, (err + m) as int, 10000);
        }
        let est_next: u64 = if meas >= est {
            let diff = meas - est;
            proof {
                assert(gain * (diff as u128) <= 10000 * (diff as u128)) by (nonlinear_arith)
                    requires
                        gain <= 10000u128,
                        diff <= u64::MAX,
                ;
            }
            let delta = gain * (diff as u128) / 10000;
            proof {
                lemma_div_bound((gain * diff) as int, 10000, diff as int);
            }
            est + (delta as u64)
        } else {
            let diff = est - meas;
            proof {
                assert(gain * (diff as u128) <= 10000 * (diff as u128)) by (nonlinear_arith)
                    requires
                        gain <= 10000u128,
                        diff <= u64::MAX,
                ;
            }
            let delta = gain * (diff as u128) / 10000;
            proof {
                lemma_div_bound((gain * diff) as int, 10000, diff as int);
            }
            est - (delta as u64)
        };
        proof {
            assert((10000 - gain) * err <= 10000 * err) by (nonlinear_arith)
                requires
                    gain <= 10000u128,
                    0 <= err,
            ;
            lemma_div_bound(((10000 - gain) * err) as int, 10000, err as int);
        }
        let err_next = (10000 - gain) * err / 10000 + 1000;
        est = est_next;
        err = err_next;
        i = i + 1;
    }
    est
}

/// The distance of a price from the mean.
pub open spec fn price_dev(p: u64, mean: int) -> int {
    if p >= mean {
        p - mean
    } else {
        mean - p
    }
}

/// The prices whose distance from `mean` is within the threshold, in
/// order.
pub open spec fn kept_prices(ps: Seq<u64>, mean: int, threshold: u64) -> Seq<u64>
    decreases ps.len(),
{
    if ps.len() == 0 {
        Seq::empty()
    } else {
        let rest = kept_prices(ps.drop_last(), mean, threshold);
        if price_dev(ps.last(), mean) <= threshold {
            rest.push(ps.last())
        } else {
            rest
        }
    }
}

/// The outlier-adjusted mean: drop the readings further than the threshold
/// from the mean, average the remainder.  Fails when nothing survives.
pub open spec fn outlier_adjusted_spec(ps: Seq<u64>, threshold: u64) -> Result<u64, OracleError> {
    let mean = crate::stats::price_mean(ps);
    let kept = kept_prices(ps, mean, threshold);
    if kept.len() == 0 {
        Err(OracleError::InsufficientValidSources)
    } else {
        Ok((sum_u64(kept) / (kept.len() as int)) as u64)
    }
}

/// Computes the outlier-adjusted mean of the prices.
pub fn outlier_adjusted(ps: &Vec<u64>, threshold: u64) -> (r: Result<u64, OracleError>)
    requires
        ps@.len() >= 1,
    ensures
        r == outlier_adjusted_spec(ps@, threshold),
{
    let n = ps.len();
    let mut sum: u128 = 0;
    let mut i: usize = 0;
    while i < n
        invariant
            0 <= i <= n,
            n == ps@.len(),
            sum == sum_u64(ps@.subrange(0, i as int)),
            sum <= (i as int) * 0xffff_ffff_ffff_ffffu64,
        decreases n - i,
    {
        proof {
            assert(ps@.subrange(0, i + 1 as int).drop_last() =~= ps@.subrange(0, i as int));
            assert(ps@.subrange(0, i + 1 as int).last() == ps@[i as int]);
        }
        sum = sum + (ps[i] as u128);
        i = i + 1;
    }
    proof {
        assert(ps@.subrange(0, n as int) =~= ps@);
        lemma_div_bound(sum as int, n as int, 0xffff_ffff_ffff_ffffu64 as int);
    }
    let mean = (sum / (n as u128)) as u64;

    let mut kept: Vec<u64> = Vec::new();
    let mut j: usize = 0;
    while j < n
        invariant
            0 <= j <= n,
            n == ps@.len(),
            mean as int == crate::stats::price_mean(ps@),
            kept@ == kept_prices(ps@.subrange(0, j as int), mean as int, threshold),
        decreases n - j,
    {
        proof {
            assert(ps@.subrange(0, j + 1 as int).drop_last() =~= ps@.subrange(0, j as int));
            assert(ps@.subrange(0, j + 1 as int).last() == ps@[j as int]);
        }
        let p = ps[j];
        let dev = if p >= mean {
            p - mean
        } else {
            mean - p
        };
        if dev <= threshold {
            kept.push(p);
        }
        j = j + 1;
    }
    proof {
        assert(ps@.subrange(0, n as int) =~= ps@);
    }
    if kept.len() == 0 {
        return Err(OracleError::InsufficientValidSources);
    }

    let m = kept.len();
    let mut sum2: u128 = 0;
    let mut k: usize = 0;
    while k < m
        invariant
            0 <= k <= m,
            m == kept@.len(),
            sum2 == sum_u64(kept@.subrange(0, k as int)),
            sum2 <= (k as int) * 0xffff_ffff_ffff_ffffu64,
        decreases m - k,
    {
        proof {
            assert(kept@.subrange(0, k + 1 as int).drop_last() =~= kept@.subrange(0, k as int));
            assert(kept@.subrange(0, k + 1 as int).last() == kept@[k as int]);
        }
        sum2 = sum2 + (kept[k] as u128);
        k = k + 1;
    }
    proof {
        assert(kept@.subrange(0, m as int) =~= kept@);
        lemma_div_bound(sum2 as int, m as int, 0xffff_ffff_ffff_ffffu64 as int);
    }
    Ok((sum2 / (m as u128)) as u64)
}

/// Whether the spread of the raw prices exceeds the allowed deviation.
pub fn spread_too_high(ps: &Vec<u64>, max_deviation: u64) -> (r: bool)
    requires
        ps@.len() >= 1,
    ensures
        r == (seq_max(ps@) - seq_min(ps@) > max_deviation),
{
    let mut mx: u64 = ps[0];
    let mut mn: u64 = ps[0];
    let mut i: usize = 1;
    while i < ps.len()
        invariant
            1 <= i <= ps@.len(),
            mx == seq_max(ps@.subrange(0, i as int)),
            mn == seq_min(ps@.subrange(0, i as int)),
            mn <= mx,
        decreases ps@.len() - i,
    {
        proof {
            assert(ps@.subrange(0, i + 1 as int).drop_last() =~= ps@.subrange(0, i as int));
            assert(ps@.subrange(0, i + 1 as int).last() == ps@[i as int]);
        }
        let p = ps[i];
        if p > mx {
            mx = p;
        }
        if p < mn {
            mn = p;
        }
        i = i + 1;
    }
    proof {
        assert(ps@.subrange(0, ps@.len() as int) =~= ps@);
    }
    mx - mn > max_deviation
}

/// Extracts the prices of the readings, in order.
pub fn extract_reading_prices(readings: &Vec<Reading>) -> (r: Vec<u64>)
    ensures
        r@ == reading_prices(readings@),
{
    let mut prices: Vec<u64> = Vec::new();
    let mut i: usize = 0;
    while i < readings.len()
        invariant
            i <= readings@.len(),
            prices@ == reading_prices(readings@.subrange(0, i as int)),
        decreases readings@.len() - i,
    {
        proof {
            assert(readings@.subrange(0, i + 1 as int).map_values(|r: Reading| r.0)
                =~= readings@.subrange(0, i as int).map_values(|r: Reading| r.0).push(
                    readings@[i as int].0));
        }
        prices.push(readings[i].0);
        i = i + 1;
    }
    proof {
        assert(readings@.subrange(0, readings@.len() as int) =~= readings@);
    }
    prices
}

/// Extracts the confidence-or-volume column of the readings, in order.
pub fn extract_reading_weights(readings: &Vec<Reading>) -> (r: Vec<u64>)
    ensures
        r@ == reading_weights(readings@),
{
    let mut ws: Vec<u64> = Vec::new();
    let mut i: usize = 0;
    while i < readings.len()
        invariant
            i <= readings@.len(),
            ws@ == reading_weights(readings@.subrange(0, i as int)),
        decreases readings@.len() - i,
    {
        proof {
            assert(readings@.subrange(0, i + 1 as int).map_values(|r: Reading| r.1)
                =~= readings@.subrange(0, i as int).map_values(|r: Reading| r.1).push(
                    readings@[i as int].1));
        }
        ws.push(readings[i].1);
        i = i + 1;
    }
    proof {
        assert(readings@.subrange(0, readings@.len() as int) =~= readings@);
    }
    ws
}

/// Extracts the first components of a list of pairs, in order.
pub fn pair_firsts(v: &Vec<(u64, u64)>) -> (r: Vec<u64>)
    ensures
        r@ == v@.map_values(|t: (u64, u64)| t.0),
{
    let mut out: Vec<u64> = Vec::new();
    let mut i: usize = 0;
    while i < v.len()
        invariant
            i <= v@.len(),
            out@ == v@.subrange(0, i as int).map_values(|t: (u64, u64)| t.0),
        decreases v@.len() - i,
    {
        proof {
            assert(v@.subrange(0, i + 1 as int).map_values(|t: (u64, u64)| t.0)
                =~= v@.subrange(0, i as int).map_values(|t: (u64, u64)| t.0).push(
                    v@[i as int].0));
        }
        out.push(v[i].0);
        i = i + 1;
    }
    proof {
        assert(v@.subrange(0, v@.len() as int) =~= v@);
    }
    out
}

/// Extracts the second components of a list of pairs, in order.
pub fn pair_seconds(v: &Vec<(u64, u64)>) -> (r: Vec<u64>)
    ensures
        r@ == v@.map_values(|t: (u64, u64)| t.1),
{
    let mut out: Vec<u64> = Vec::new();
    let mut i: usize = 0;
    while i < v.len()
        invariant
            i <= v@.len(),
            out@ == v@.subrange(0, i as int).map_values(|t: (u64, u64)| t.1),
        decreases v@.len() - i,
    {
        proof {
            assert(v@.subrange(0, i + 1 as int).map_values(|t: (u64, u64)| t.1)
                =~= v@.subrange(0, i as int).map_values(|t: (u64, u64)| t.1).push(
                    v@[i as int].1));
        }
        out.push(v[i].1);
        i = i + 1;
    }
    proof {
        assert(v@.subrange(0, v@.len() as int) =~= v@);
    }
    out
}

/// What one aggregation call returns: the quorum check, the strategy's own
/// combination, then the spread guard over the raw readings.
pub open spec fn aggregate_spec(readings: Seq<Reading>, strategy: AggregationStrategy) -> Result<
    u64,
    OracleError,
> {
    if readings.len() == 0 || readings.len() < strategy.min_valid_sources {
        Err(OracleError::InsufficientValidSources)
    } else {
        let ps = reading_prices(readings);
        let candidate = match strategy.method {
            AggregationMethod::WeightedAverage => weighted_average_spec(ps, strategy.weights@),
            AggregationMethod::Median => Ok(median_spec(ps)),
            AggregationMethod::TrimmedMean => trimmed_mean_spec(ps, strategy.outlier_threshold),
            AggregationMethod::VolumeWeighted => weighted_average_spec(
                ps,
                reading_weights(readings),
            ),
            AggregationMethod::ConfidenceWeighted => weighted_average_spec(
                ps,
                reading_weights(readings),
            ),
            AggregationMethod::WeightedMedian => Ok(weighted_median_spec(ps, strategy.weights@)),
            AggregationMethod::KalmanFilter => Ok(kalman_spec(readings)),
            AggregationMethod::OutlierAdjusted => outlier_adjusted_spec(
                ps,
                strategy.outlier_threshold,
            ),
        };
        match candidate {
            Err(e) => Err(e),
            Ok(c) => if seq_max(ps) - seq_min(ps) > strategy.max_deviation {
                Err(OracleError::PriceDeviationTooHigh)
            } else {
                Ok(c)
            },
        }
    }
}

/// Combines the readings under the strategy: requires the quorum, computes
/// the strategy's candidate, then rejects the whole call if the spread of
/// the raw readings exceeds the allowed deviation.
pub fn aggregate_readings(readings: &Vec<Reading>, strategy: &AggregationStrategy) -> (r: Result<
    u64,
    OracleError,
>)
    ensures
        r == aggregate_spec(readings@, *strategy),
{
    if readings.len() == 0 || readings.len() < strategy.min_valid_sources as usize {
        return Err(OracleError::InsufficientValidSources);
    }
    let prices = extract_reading_prices(readings);
    let candidate = match strategy.method {
        AggregationMethod::WeightedAverage => weighted_average(&prices, &strategy.weights),
        AggregationMethod::Median => Ok(median(&prices)),
        AggregationMethod::TrimmedMean => trimmed_mean(&prices, strategy.outlier_threshold),
        AggregationMethod::VolumeWeighted => {
            let ws = extract_reading_weights(readings);
            weighted_average(&prices, &ws)
        },
        AggregationMethod::ConfidenceWeighted => {
            let ws = extract_reading_weights(readings);
            weighted_average(&prices, &ws)
        },
        AggregationMethod::WeightedMedian => {
            if strategy.weights.len() == 0 {
                proof {
                    assert(paired(prices@, strategy.weights@) =~= Seq::<(u64, u64)>::empty());
                }
                Ok(0u64)
            } else {
                Ok(weighted_median(&prices, &strategy.weights))
            }
        },
        AggregationMethod::KalmanFilter => Ok(apply_kalman_filter(readings)),
        AggregationMethod::OutlierAdjusted => outlier_adjusted(
            &prices,
            strategy.outlier_threshold,
        ),
    };
    match candidate {
        Err(e) => Err(e),
        Ok(c) => {
            if spread_too_high(&prices, strategy.max_deviation) {
                Err(OracleError::PriceDeviationTooHigh)
            } else {
                Ok(c)
            }
        },
    }
}

} // verus!
