//! Per-asset feed state: price points, the bounded price history, volatility
//! band metrics, the per-feed circuit breaker, and the feed record itself.

use vstd::prelude::*;

use crate::errors::OracleError;
use crate::math::change_bp;
use crate::math::change_bp_u128;
use crate::source::PriceSource;

verus! {

/// Capacity of a feed's embedded price history; the oldest point is evicted
/// once the buffer is full.
pub const PRICE_HISTORY_CAPACITY: usize = 32;

/// One recorded price observation.
#[derive(Clone, Copy, Debug, PartialEq, Eq, Structural)]
pub struct PricePoint {
    /// Price in fixed-point with six implied decimals.
    pub price: u64,
    /// When the observation was committed.
    pub timestamp: i64,
    /// Reporter-assigned weight (the reading's confidence for direct
    /// ingestion).
    pub weight: u64,
}

/// Price bands derived from the history: mean plus/minus two standard
/// deviations, clamped to the `u64` range.
#[derive(Clone, Copy, Debug, PartialEq, Eq, Structural)]
pub struct BollingerBands {
    pub upper: u64,
    pub middle: u64,
    pub lower: u64,
}

/// Rolling statistics over a feed's history; absent until the history holds
/// at least two points.
#[derive(Clone, Copy, Debug, PartialEq, Eq, Structural)]
pub struct VolatilityMetrics {
    pub bollinger_bands: BollingerBands,
    /// When the bands were last recomputed.
    pub last_calculation: i64,
}

/// Per-feed gate that rejects statistically anomalous price updates and,
/// once tripped, locks the feed out until its cooling period has elapsed.
///
/// A feed is created with a zeroed breaker; in the update pipeline a zero
/// threshold leaves the corresponding check disabled, so an unconfigured
/// breaker does not gate.
#[derive(Clone, Copy, Debug, PartialEq, Eq, Structural)]
pub struct CircuitBreaker {
    /// Largest allowed move away from the current price, in basis points.
    pub max_price_change_percentage: u64,
    /// How long a tripped breaker blocks all updates, in seconds.
    pub cooling_period: i64,
    /// When the breaker last tripped.
    pub last_triggered: i64,
    pub is_triggered: bool,
    /// Largest allowed feed volatility.
    pub volatility_threshold: u64,
    /// How many threshold checks in a row have failed.
    pub consecutive_breaches: u8,
    /// Smallest trade volume required by the full threshold check.
    pub volume_threshold: u64,
    /// Smallest market liquidity required by the full threshold check.
    pub liquidity_threshold: u64,
    /// Largest allowed move away from the TWAP, in basis points.
    pub max_price_deviation_from_twap: u64,
}

impl CircuitBreaker {
    /// The zeroed breaker a feed is born with.
    pub open spec fn spec_zeroed() -> CircuitBreaker {
        CircuitBreaker {
            max_price_change_percentage: 0,
            cooling_period: 0,
            last_triggered: 0,
            is_triggered: false,
            volatility_threshold: 0,
            consecutive_breaches: 0,
            volume_threshold: 0,
            liquidity_threshold: 0,
            max_price_deviation_from_twap: 0,
        }
    }

    /// Executable twin of [`Self::spec_zeroed`].
    pub fn zeroed() -> (r: CircuitBreaker)
        ensures
            r == Self::spec_zeroed(),
    {
        CircuitBreaker {
            max_price_change_percentage: 0,
            cooling_period: 0,
            last_triggered: 0,
            is_triggered: false,
            volatility_threshold: 0,
            consecutive_breaches: 0,
            volume_threshold: 0,
            liquidity_threshold: 0,
            max_price_deviation_from_twap: 0,
        }
    }

    /// The full threshold test: every one of the five conditions must hold.
    pub open spec fn passes_conditions(
        self,
        new_price: u64,
        current_price: u64,
        twap: u64,
        volatility: u64,
        volume: u64,
        liquidity: u64,
    ) -> bool {
        &&& change_bp(new_price, current_price) <= self.max_price_change_percentage
        &&& volatility <= self.volatility_threshold
        &&& volume >= self.volume_threshold
        &&& liquidity >= self.liquidity_threshold
        &&& change_bp(new_price, twap) <= self.max_price_deviation_from_twap
    }

    /// Checks a candidate price against all five breaker thresholds: price
    /// change and TWAP deviation in basis points, volatility at most its
    /// threshold, volume and liquidity at least theirs.
    ///
    /// Read-only; the caller decides what to do with a rejection.
    pub fn check_conditions(
        &self,
        new_price: u64,
        current_price: u64,
        twap: u64,
        volatility: u64,
        volume: u64,
        liquidity: u64,
    ) -> (r: Result<(), OracleError>)
        requires
            current_price > 0,
            twap > 0,
        ensures
            self.passes_conditions(new_price, current_price, twap, volatility, volume, liquidity)
                ==> r == Ok::<(), OracleError>(()),
            !self.passes_conditions(new_price, current_price, twap, volatility, volume, liquidity)
                ==> r == Err::<(), OracleError>(OracleError::CircuitBreakerTriggered),
    {
        let change = change_bp_u128(new_price, current_price);
        let twap_deviation = change_bp_u128(new_price, twap);
        if change <= self.max_price_change_percentage as u128
            && volatility <= self.volatility_threshold
            && volume >= self.volume_threshold
            && liquidity >= self.liquidity_threshold
            && twap_deviation <= self.max_price_deviation_from_twap as u128 {
            Ok(())
        } else {
            Err(OracleError::CircuitBreakerTriggered)
        }
    }

    /// A tripped breaker blocks every update until its cooling period has
    /// elapsed, independent of the new attempt's own magnitude.
    pub open spec fn in_cooling_lockout(self, now: i64) -> bool {
        self.is_triggered && (now as int) < self.last_triggered + self.cooling_period
    }

    /// The update pipeline's threshold test over the data the feed itself
    /// carries.  A zero threshold disables its check; volume and liquidity
    /// thresholds bind only in [`Self::passes_conditions`], where the caller
    /// supplies market depth.
    pub open spec fn gate_passes(
        self,
        candidate: u64,
        current: u64,
        twap: u64,
        volatility: u64,
    ) -> bool {
        &&& self.max_price_change_percentage != 0
            ==> change_bp(candidate, current) <= self.max_price_change_percentage
        &&& self.volatility_threshold != 0 ==> volatility <= self.volatility_threshold
        &&& self.max_price_deviation_from_twap != 0
            ==> change_bp(candidate, twap) <= self.max_price_deviation_from_twap
    }

    /// An enabled percentage check against a zero base cannot be computed.
    pub open spec fn gate_division_by_zero(self, current: u64, twap: u64) -> bool {
        ||| self.max_price_change_percentage != 0 && current == 0
        ||| self.max_price_deviation_from_twap != 0 && twap == 0
    }

    /// Runs the update pipeline's threshold test.  `Ok(true)` means the
    /// candidate may be committed, `Ok(false)` that it must be rejected.
    pub fn gate_check(
        &self,
        candidate: u64,
        current: u64,
        twap: u64,
        volatility: u64,
    ) -> (r: Result<bool, OracleError>)
        ensures
            self.gate_division_by_zero(current, twap)
                ==> r == Err::<bool, OracleError>(OracleError::ArithmeticError),
            !self.gate_division_by_zero(current, twap)
                ==> r == Ok::<bool, OracleError>(
                    self.gate_passes(candidate, current, twap, volatility)),
    {
        if self.max_price_change_percentage != 0 && current == 0 {
            return Err(OracleError::ArithmeticError);
        }
        if self.max_price_deviation_from_twap != 0 && twap == 0 {
            return Err(OracleError::ArithmeticError);
        }
        let change_ok = if self.max_price_change_percentage != 0 {
            change_bp_u128(candidate, current) <= self.max_price_change_percentage as u128
        } else {
            true
        };
        let volatility_ok = if self.volatility_threshold != 0 {
            volatility <= self.volatility_threshold
        } else {
            true
        };
        let twap_ok = if self.max_price_deviation_from_twap != 0 {
            change_bp_u128(candidate, twap) <= self.max_price_deviation_from_twap as u128
        } else {
            true
        };
        Ok(change_ok && volatility_ok && twap_ok)
    }
}

/// One asset's feed: the committed price, its provenance and freshness, the
/// smoothed TWAP, the bounded history, and the feed's anomaly state.
#[derive(Clone, Debug)]
pub struct PriceFeed {
    /// The asset this feed prices.
    pub token_mint: u64,
    /// Price in fixed-point with six implied decimals.
    pub price: u64,
    /// Confidence interval; narrower is more trustworthy.
    pub confidence: u64,
    /// When the feed last committed an update; non-decreasing.
    pub last_update: i64,
    /// Exponentially smoothed time-weighted average price.
    pub twap: u64,
    /// Where the committed price came from.
    pub source: PriceSource,
    /// How long this feed's price stays valid.
    pub valid_period: i64,
    /// Secondary provider tried when the primary cannot deliver.
    pub fallback_source: Option<PriceSource>,
    /// Bounded history, oldest first, timestamps non-decreasing.
    pub price_history: Vec<PricePoint>,
    /// Return-based volatility of the history, in basis points.
    pub volatility: u64,
    pub circuit_breaker: CircuitBreaker,
    /// Band metrics; present once the history holds at least two points.
    pub volatility_metrics: Option<VolatilityMetrics>,
}

impl PriceFeed {
    /// Well-formedness: the history is bounded, its timestamps never
    /// decrease, and none of them is newer than the feed's last update.
    pub open spec fn wf(self) -> bool {
        &&& self.price_history@.len() <= PRICE_HISTORY_CAPACITY
        &&& forall|i: int, j: int|
            0 <= i <= j < self.price_history@.len()
                ==> self.price_history@[i].timestamp <= self.price_history@[j].timestamp
        &&& forall|i: int|
            0 <= i < self.price_history@.len()
                ==> self.price_history@[i].timestamp <= self.last_update
    }
}

/// The history after recording one more point: appended, with the oldest
/// point evicted if the buffer was full.
pub open spec fn push_evict(h: Seq<PricePoint>, p: PricePoint) -> Seq<PricePoint> {
    if h.len() < PRICE_HISTORY_CAPACITY {
        h.push(p)
    } else {
        h.drop_first().push(p)
    }
}

/// Records a point in a bounded history, evicting the oldest point if the
/// buffer is full.
pub fn record_point(history: &mut Vec<PricePoint>, point: PricePoint)
    requires
        old(history)@.len() <= PRICE_HISTORY_CAPACITY,
    ensures
        final(history)@ == push_evict(old(history)@, point),
        final(history)@.len() <= PRICE_HISTORY_CAPACITY,
{
    if history.len() >= PRICE_HISTORY_CAPACITY {
        history.remove(0);
        proof {
            assert(history@ =~= old(history)@.drop_first());
        }
    }
    history.push(point);
}

/// The prices of a history, in order.
pub open spec fn history_prices(h: Seq<PricePoint>) -> Seq<u64> {
    h.map_values(|p: PricePoint| p.price)
}

/// Extracts the prices of a history, in order.
pub fn extract_history_prices(history: &Vec<PricePoint>) -> (r: Vec<u64>)
    ensures
        r@ == history_prices(history@),
{
    let mut prices: Vec<u64> = Vec::new();
    let mut i: usize = 0;
    while i < history.len()
        invariant
            i <= history@.len(),
            prices@ == history_prices(history@.subrange(0, i as int)),
        decreases history@.len() - i,
    {
        prices.push(history[i].price);
        proof {
            assert(history@.subrange(0, i + 1 as int).map_values(|p: PricePoint| p.price)
                =~= history@.subrange(0, i as int).map_values(|p: PricePoint| p.price).push(
                    history@[i as int].price));
        }
        i = i + 1;
    }
    proof {
        assert(history@.subrange(0, history@.len() as int) =~= history@);
    }
    prices
}

} // verus!
