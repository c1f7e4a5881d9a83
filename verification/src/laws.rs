//! Laws of the oracle engine, proved once and for all inputs: how the
//! exponential smoothing is bounded by its inputs, when a read is stale,
//! and what the cooling lockout blocks.

use vstd::prelude::*;

use crate::errors::OracleError;
use crate::oracle::PriceOracle;
use crate::oracle::PriceUpdated;
use crate::oracle::ingest_ensures;
use crate::source::PriceSource;
use crate::twap::ema_spec;

verus! {

/// The smoothed TWAP `(3t + p) / 4` lies between the prior TWAP `t` and
/// the ingested price `p`: equal to both when they agree, strictly below
/// the larger of the two, and strictly above the smaller once they are far
/// enough apart for the quarter-weight to register (`p >= t + 4` from
/// below, `t >= p + 2` from above; for closer inputs rounding can leave
/// the average at the smaller bound).
pub proof fn lemma_ema_between(t: u64, p: u64)
    ensures
        t == p ==> ema_spec(t, p) == t,
        t < p ==> t <= ema_spec(t, p) < p,
        t < p && p >= t + 4 ==> t < ema_spec(t, p),
        p < t ==> p <= ema_spec(t, p) < t,
        p < t && t >= p + 2 ==> p < ema_spec(t, p),
{
}

/// A price read fails `StalePrice` exactly when the feed's age exceeds
/// `max_price_age`; at the boundary the staleness check passes.
pub proof fn lemma_staleness_boundary(o: PriceOracle, asset: u64, now: i64)
    requires
        o.has_feed(asset),
    ensures
        (o.get_price_spec(asset, now) == Err::<u64, OracleError>(OracleError::StalePrice)) <==> (
        now - o.feed_of(asset).last_update > o.max_price_age),
        now - o.feed_of(asset).last_update == o.max_price_age ==> o.get_price_spec(asset, now)
            != Err::<u64, OracleError>(OracleError::StalePrice),
{
}

/// Once a feed's breaker is in its cooling lockout, an authorized,
/// unthrottled update attempt is rejected `CircuitBreakerTriggered` and
/// mutates nothing, whatever the candidate price, confidence or source.
pub proof fn lemma_cooling_lockout(
    pre: PriceOracle,
    post: PriceOracle,
    caller: u64,
    asset: u64,
    price: u64,
    confidence: u64,
    source: PriceSource,
    now: i64,
    r: Result<PriceUpdated, OracleError>,
)
    requires
        ingest_ensures(pre, post, caller, asset, price, confidence, source, now, r),
        caller == pre.authority,
        !pre.throttled(now),
        pre.has_feed(asset),
        pre.feed_of(asset).circuit_breaker.in_cooling_lockout(now),
    ensures
        r == Err::<PriceUpdated, OracleError>(OracleError::CircuitBreakerTriggered),
        post == pre,
{
}

} // verus!
