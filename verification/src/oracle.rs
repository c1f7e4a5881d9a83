//! The price-oracle registry: one feed per asset, a read API that checks
//! freshness and confidence, and the update pipeline that gates every
//! candidate price behind the feed's circuit breaker before committing.

use vstd::prelude::*;

use crate::errors::OracleError;
use crate::feed::CircuitBreaker;
use crate::feed::PriceFeed;
use crate::feed::PricePoint;
use crate::feed::PRICE_HISTORY_CAPACITY;
use crate::feed::extract_history_prices;
use crate::feed::history_prices;
use crate::feed::push_evict;
use crate::feed::record_point;
use crate::math::lemma_div_bound;
use crate::source::PriceSource;
use crate::stats::bands_ok;
use crate::stats::has_zero_base;
use crate::stats::metrics_from_prices;
use crate::stats::metrics_overflow;
use crate::stats::volatility_from_prices;
use crate::stats::volatility_overflow;
use crate::stats::volatility_update_ok;
use crate::twap::ema_spec;
use crate::twap::twap_wsum;
use crate::twap::twap_wtotal;
use crate::twap::windowed_twap;

verus! {

/// Emitted once when a registry is created.
#[derive(Clone, Copy, Debug, PartialEq, Eq, Structural)]
pub struct OracleInitialized {
    pub authority: u64,
    pub timestamp: i64,
}

/// Emitted for every committed price update.
#[derive(Clone, Copy, Debug, PartialEq, Eq, Structural)]
pub struct PriceUpdated {
    pub token_mint: u64,
    pub price: u64,
    pub confidence: u64,
    pub source: PriceSource,
    pub timestamp: i64,
}

/// Which sources to gather from for a store-backed aggregation, with
/// positional weights, a quorum, and a spread bound.
#[derive(Clone, Debug)]
pub struct AggregationConfig {
    pub sources: Vec<PriceSource>,
    pub weights: Vec<u64>,
    pub min_valid_sources: u8,
    pub max_price_deviation: u64,
}

/// The index of the first feed for `asset`, or -1 if none exists.
pub open spec fn feed_index_in(feeds: Seq<PriceFeed>, asset: u64) -> int
    decreases feeds.len(),
{
    if feeds.len() == 0 {
        -1
    } else if feeds[0].token_mint == asset {
        0
    } else {
        let r = feed_index_in(feeds.drop_first(), asset);
        if r < 0 {
            -1
        } else {
            r + 1
        }
    }
}

/// What [`feed_index_in`] returns: a valid index of a feed for `asset`
/// preceded by no other, or -1 when no feed matches.
pub proof fn lemma_feed_index_in(feeds: Seq<PriceFeed>, asset: u64)
    ensures
        -1 <= feed_index_in(feeds, asset) < feeds.len(),
        feed_index_in(feeds, asset) >= 0 ==> feeds[feed_index_in(feeds, asset)].token_mint
            == asset,
        feed_index_in(feeds, asset) == -1 ==> forall|j: int|
            0 <= j < feeds.len() ==> feeds[j].token_mint != asset,
    decreases feeds.len(),
{
    if feeds.len() > 0 && feeds[0].token_mint != asset {
        lemma_feed_index_in(feeds.drop_first(), asset);
        if feed_index_in(feeds.drop_first(), asset) == -1 {
            assert forall|j: int| 0 <= j < feeds.len() implies feeds[j].token_mint != asset by {
                if j > 0 {
                    assert(feeds[j] == feeds.drop_first()[j - 1]);
                }
            }
        }
    }
}

/// The first match decides the index.
pub proof fn lemma_feed_index_in_first(feeds: Seq<PriceFeed>, asset: u64, i: int)
    requires
        0 <= i < feeds.len(),
        feeds[i].token_mint == asset,
        forall|j: int| 0 <= j < i ==> feeds[j].token_mint != asset,
    ensures
        feed_index_in(feeds, asset) == i,
    decreases feeds.len(),
{
    if i > 0 {
        assert(forall|j: int|
            0 <= j < i - 1 ==> feeds.drop_first()[j] == feeds[j + 1]);
        lemma_feed_index_in_first(feeds.drop_first(), asset, i - 1);
    }
}

/// The per-asset registry of price feeds, with its global freshness and
/// trust configuration.
#[derive(Clone, Debug)]
pub struct PriceOracle {
    /// The administrative identity allowed to ingest prices.
    pub authority: u64,
    /// One feed per asset.
    pub price_feeds: Vec<PriceFeed>,
    /// When the registry last committed any update; non-decreasing.
    pub last_update: i64,
    pub is_valid: bool,
    /// Minimum spacing between registry-wide updates, in seconds.
    pub update_frequency: i64,
    /// Maximum age of a price before reads fail as stale, in seconds.
    pub max_price_age: i64,
    /// Minimum confidence a read requires.
    pub min_confidence: u64,
}

impl PriceOracle {
    /// Well-formedness: non-negative durations, well-formed feeds none
    /// newer than the registry, and at most one feed per asset.
    pub open spec fn wf(self) -> bool {
        &&& self.update_frequency >= 0
        &&& self.max_price_age >= 0
        &&& forall|i: int|
            0 <= i < self.price_feeds@.len() ==> (#[trigger] self.price_feeds@[i]).wf()
        &&& forall|i: int|
            0 <= i < self.price_feeds@.len()
                ==> (#[trigger] self.price_feeds@[i]).last_update <= self.last_update
        &&& forall|i: int, j: int|
            0 <= i < j < self.price_feeds@.len()
                ==> self.price_feeds@[i].token_mint != self.price_feeds@[j].token_mint
    }

    /// The index of the asset's feed, or -1.
    pub open spec fn feed_index(self, asset: u64) -> int {
        feed_index_in(self.price_feeds@, asset)
    }

    /// Whether the asset has a feed.
    pub open spec fn has_feed(self, asset: u64) -> bool {
        self.feed_index(asset) >= 0
    }

    /// The asset's feed.  Meaningful only when one exists.
    pub open spec fn feed_of(self, asset: u64) -> PriceFeed {
        self.price_feeds@[self.feed_index(asset)]
    }

    /// Finds the asset's feed.
    fn find_feed(&self, asset: u64) -> (r: Option<usize>)
        ensures
            match r {
                Some(i) => self.feed_index(asset) == i && i < self.price_feeds@.len(),
                None => self.feed_index(asset) == -1,
            },
    {
        let mut i: usize = 0;
        while i < self.price_feeds.len()
            invariant
                i <= self.price_feeds@.len(),
                forall|j: int| 0 <= j < i ==> self.price_feeds@[j].token_mint != asset,
            decreases self.price_feeds@.len() - i,
        {
            if self.price_feeds[i].token_mint == asset {
                proof {
                    lemma_feed_index_in_first(self.price_feeds@, asset, i as int);
                }
                return Some(i);
            }
            i = i + 1;
        }
        proof {
            lemma_feed_index_in(self.price_feeds@, asset);
            if self.feed_index(asset) >= 0 {
                assert(self.price_feeds@[self.feed_index(asset)].token_mint == asset);
            }
        }
        None
    }

    /// Whether the registry's throttle rejects an update at `now`.
    pub open spec fn throttled(self, now: i64) -> bool {
        (now as int) < self.last_update + self.update_frequency
    }

    /// What a price read returns: the feed's committed price, unless the
    /// asset is unknown, the price older than `max_price_age`, or its
    /// confidence below `min_confidence`.
    pub open spec fn get_price_spec(self, asset: u64, now: i64) -> Result<u64, OracleError> {
        if !self.has_feed(asset) {
            Err(OracleError::PriceFeedNotFound)
        } else {
            let feed = self.feed_of(asset);
            if now - feed.last_update > self.max_price_age {
                Err(OracleError::StalePrice)
            } else if feed.confidence < self.min_confidence {
                Err(OracleError::LowConfidence)
            } else {
                Ok(feed.price)
            }
        }
    }

    /// Reads the asset's price.  No side effects: the result is a function
    /// of the registry state, the asset, and the supplied time alone, so
    /// two consecutive reads return the same answer.
    ///
    /// Fails `StalePrice` exactly when `now - last_update` exceeds
    /// `max_price_age`; a read at the boundary succeeds.
    pub fn get_price(&self, asset: u64, now: i64) -> (r: Result<u64, OracleError>)
        ensures
            r == self.get_price_spec(asset, now),
    {
        let i = match self.find_feed(asset) {
            Some(i) => i,
            None => {
                return Err(OracleError::PriceFeedNotFound);
            },
        };
        let feed = &self.price_feeds[i];
        if (now as i128) - (feed.last_update as i128) > (self.max_price_age as i128) {
            return Err(OracleError::StalePrice);
        }
        if feed.confidence < self.min_confidence {
            return Err(OracleError::LowConfidence);
        }
        Ok(feed.price)
    }

    /// What a TWAP read returns: the cached smoothed average, unless the
    /// asset is unknown.
    pub open spec fn get_twap_spec(self, asset: u64) -> Result<u64, OracleError> {
        if !self.has_feed(asset) {
            Err(OracleError::PriceFeedNotFound)
        } else {
            Ok(self.feed_of(asset).twap)
        }
    }

    /// Reads the asset's cached TWAP.  No side effects.
    pub fn get_twap(&self, asset: u64) -> (r: Result<u64, OracleError>)
        ensures
            r == self.get_twap_spec(asset),
    {
        match self.find_feed(asset) {
            Some(i) => Ok(self.price_feeds[i].twap),
            None => Err(OracleError::PriceFeedNotFound),
        }
    }

    /// What a read routed through a source tag returns.  A provider tag
    /// reads the stored price only if the feed's data came from that
    /// provider and passes the usual freshness and confidence checks; the
    /// TWAP tag reads the cached TWAP; the registry's own tags read the
    /// plain price.
    pub open spec fn source_price_spec(self, asset: u64, source: PriceSource, now: i64) -> Result<
        u64,
        OracleError,
    > {
        if source == PriceSource::TWAP {
            self.get_twap_spec(asset)
        } else if source.spec_is_provider() {
            if !self.has_feed(asset) {
                Err(OracleError::PriceFeedNotFound)
            } else {
                let feed = self.feed_of(asset);
                if feed.source != source {
                    Err(OracleError::NoValidPriceSource)
                } else if now - feed.last_update > self.max_price_age {
                    Err(OracleError::StalePrice)
                } else if feed.confidence < self.min_confidence {
                    Err(OracleError::LowConfidence)
                } else {
                    Ok(feed.price)
                }
            }
        } else {
            self.get_price_spec(asset, now)
        }
    }

    /// Reads the asset's price as the given source tag sees it.
    fn get_price_from_source(&self, asset: u64, source: PriceSource, now: i64) -> (r: Result<
        u64,
        OracleError,
    >)
        ensures
            r == self.source_price_spec(asset, source, now),
    {
        if source == PriceSource::TWAP {
            return self.get_twap(asset);
        }
        if !source.is_provider() {
            return self.get_price(asset, now);
        }
        let i = match self.find_feed(asset) {
            Some(i) => i,
            None => {
                return Err(OracleError::PriceFeedNotFound);
            },
        };
        let feed = &self.price_feeds[i];
        if feed.source != source {
            return Err(OracleError::NoValidPriceSource);
        }
        if (now as i128) - (feed.last_update as i128) > (self.max_price_age as i128) {
            return Err(OracleError::StalePrice);
        }
        if feed.confidence < self.min_confidence {
            return Err(OracleError::LowConfidence);
        }
        Ok(feed.price)
    }

    /// What a fallback read returns: the primary source's price if it
    /// delivers, else the fallback source's if one is set and delivers,
    /// else `NoValidPriceSource`.
    pub open spec fn fallback_price_spec(self, asset: u64, now: i64) -> Result<u64, OracleError> {
        if !self.has_feed(asset) {
            Err(OracleError::PriceFeedNotFound)
        } else {
            let feed = self.feed_of(asset);
            match self.source_price_spec(asset, feed.source, now) {
                Ok(p) => Ok(p),
                Err(_) => match feed.fallback_source {
                    Some(fs) => match self.source_price_spec(asset, fs, now) {
                        Ok(p) => Ok(p),
                        Err(_) => Err(OracleError::NoValidPriceSource),
                    },
                    None => Err(OracleError::NoValidPriceSource),
                },
            }
        }
    }

    /// Reads the asset's price from its primary source, retrying with the
    /// feed's fallback source on any failure.
    pub fn get_price_with_fallback(&self, asset: u64, now: i64) -> (r: Result<u64, OracleError>)
        ensures
            r == self.fallback_price_spec(asset, now),
    {
        let i = match self.find_feed(asset) {
            Some(i) => i,
            None => {
                return Err(OracleError::PriceFeedNotFound);
            },
        };
        let primary = self.price_feeds[i].source;
        match self.get_price_from_source(asset, primary, now) {
            Ok(p) => Ok(p),
            Err(_) => {
                match self.price_feeds[i].fallback_source {
                    Some(fs) => match self.get_price_from_source(asset, fs, now) {
                        Ok(p) => Ok(p),
                        Err(_) => Err(OracleError::NoValidPriceSource),
                    },
                    None => Err(OracleError::NoValidPriceSource),
                }
            },
        }
    }

    /// Reads the asset's price under the `UniswapV3` provider tag.
    pub fn get_uniswap_price(&self, asset: u64, now: i64) -> (r: Result<u64, OracleError>)
        ensures
            r == self.source_price_spec(asset, PriceSource::UniswapV3, now),
    {
        self.get_price_from_source(asset, PriceSource::UniswapV3, now)
    }

    /// What the standalone breaker check returns: the cooling lockout
    /// first, then the price-change limit against the stored price.
    pub open spec fn check_breaker_spec(self, asset: u64, new_price: u64, now: i64) -> Result<
        (),
        OracleError,
    > {
        if !self.has_feed(asset) {
            Err(OracleError::PriceFeedNotFound)
        } else {
            let feed = self.feed_of(asset);
            if feed.circuit_breaker.in_cooling_lockout(now) {
                Err(OracleError::CircuitBreakerTriggered)
            } else if feed.price == 0 {
                Err(OracleError::ArithmeticError)
            } else if crate::math::change_bp(new_price, feed.price)
                > feed.circuit_breaker.max_price_change_percentage {
                Err(OracleError::PriceChangeExceedsLimit)
            } else {
                Ok(())
            }
        }
    }

    /// Checks a candidate price against the feed's breaker without
    /// mutating anything: fails `CircuitBreakerTriggered` during the
    /// cooling lockout and `PriceChangeExceedsLimit` when the candidate
    /// moves too far from the stored price.
    pub fn check_circuit_breaker(&self, asset: u64, new_price: u64, now: i64) -> (r: Result<
        (),
        OracleError,
    >)
        ensures
            r == self.check_breaker_spec(asset, new_price, now),
    {
        let i = match self.find_feed(asset) {
            Some(i) => i,
            None => {
                return Err(OracleError::PriceFeedNotFound);
            },
        };
        let feed = &self.price_feeds[i];
        let cb = &feed.circuit_breaker;
        if cb.is_triggered && (now as i128) < (cb.last_triggered as i128) + (
        cb.cooling_period as i128) {
            return Err(OracleError::CircuitBreakerTriggered);
        }
        if feed.price == 0 {
            return Err(OracleError::ArithmeticError);
        }
        let change = crate::math::change_bp_u128(new_price, feed.price);
        if change > cb.max_price_change_percentage as u128 {
            return Err(OracleError::PriceChangeExceedsLimit);
        }
        Ok(())
    }

    /// What an on-demand windowed TWAP returns: the weighted average over
    /// the in-window suffix of the history, or a reported failure on an
    /// empty window or an overflowing sum.
    pub open spec fn calculate_twap_spec(self, asset: u64, window_size: i64, now: i64) -> Result<
        u64,
        OracleError,
    > {
        if !self.has_feed(asset) {
            Err(OracleError::PriceFeedNotFound)
        } else {
            let h = self.feed_of(asset).price_history@;
            if twap_wtotal(h, now, window_size) == 0 || twap_wsum(h, now, window_size)
                > u128::MAX {
                Err(OracleError::ArithmeticError)
            } else {
                Ok((twap_wsum(h, now, window_size) / twap_wtotal(h, now, window_size)) as u64)
            }
        }
    }

    /// Computes the windowed weighted TWAP from the asset's history.
    pub fn calculate_twap(&self, asset: u64, window_size: i64, now: i64) -> (r: Result<
        u64,
        OracleError,
    >)
        requires
            self.wf(),
        ensures
            r == self.calculate_twap_spec(asset, window_size, now),
    {
        let i = match self.find_feed(asset) {
            Some(i) => i,
            None => {
                return Err(OracleError::PriceFeedNotFound);
            },
        };
        windowed_twap(&self.price_feeds[i].price_history, now, window_size)
    }
}

/// The feed a cold start creates: the price doubles as the TWAP, the
/// history holds the one new point, and the breaker is zeroed.
pub open spec fn fresh_feed_ok(
    f: PriceFeed,
    asset: u64,
    price: u64,
    confidence: u64,
    source: PriceSource,
    now: i64,
    valid_period: i64,
) -> bool {
    &&& f.token_mint == asset
    &&& f.price == price
    &&& f.confidence == confidence
    &&& f.last_update == now
    &&& f.twap == price
    &&& f.source == source
    &&& f.valid_period == valid_period
    &&& f.fallback_source is None
    &&& f.price_history@ == seq![PricePoint { price, timestamp: now, weight: confidence }]
    &&& f.volatility == 0
    &&& f.circuit_breaker == CircuitBreaker::spec_zeroed()
    &&& f.volatility_metrics is None
}

/// The breaker after a failed threshold test: tripped, stamped with `now`,
/// one more consecutive breach (saturating), thresholds untouched.
pub open spec fn breached_breaker(cb: CircuitBreaker, now: i64) -> CircuitBreaker {
    CircuitBreaker {
        is_triggered: true,
        last_triggered: now,
        consecutive_breaches: if cb.consecutive_breaches == 255 {
            255
        } else {
            (cb.consecutive_breaches + 1) as u8
        },
        ..cb
    }
}

/// When recomputing the statistics over the new history aborts the whole
/// update: a return over a zero price, or a squared-deviation sum too
/// large for a `u128`.
pub open spec fn commit_stats_error(nps: Seq<u64>) -> bool {
    ||| nps.len() >= 2 && (has_zero_base(nps) || metrics_overflow(nps))
    ||| nps.len() >= 3 && !has_zero_base(nps) && volatility_overflow(nps)
}

/// The committed feed after a successful update of an existing feed: the
/// new price, confidence and source, the smoothed TWAP, the point recorded
/// in the history, the statistics recomputed, and the breaker cleared.
pub open spec fn committed_feed_ok(
    nf: PriceFeed,
    f: PriceFeed,
    price: u64,
    confidence: u64,
    source: PriceSource,
    now: i64,
) -> bool {
    let nh = push_evict(f.price_history@, PricePoint { price, timestamp: now, weight: confidence });
    let nps = history_prices(nh);
    &&& nf.token_mint == f.token_mint
    &&& nf.price == price
    &&& nf.confidence == confidence
    &&& nf.last_update == now
    &&& nf.twap == ema_spec(f.twap, price)
    &&& nf.source == source
    &&& nf.valid_period == f.valid_period
    &&& nf.fallback_source == f.fallback_source
    &&& nf.price_history@ == nh
    &&& volatility_update_ok(nps, f.volatility, nf.volatility)
    &&& nf.circuit_breaker == CircuitBreaker {
        is_triggered: false,
        consecutive_breaches: 0,
        ..f.circuit_breaker
    }
    &&& if nh.len() >= 2 {
        nf.volatility_metrics matches Some(m) && bands_ok(nps, m.bollinger_bands)
            && m.last_calculation == now
    } else {
        nf.volatility_metrics is None
    }
}

/// The registry's configuration fields are untouched by an update.
pub open spec fn config_unchanged(pre: PriceOracle, post: PriceOracle) -> bool {
    &&& post.authority == pre.authority
    &&& post.is_valid == pre.is_valid
    &&& post.update_frequency == pre.update_frequency
    &&& post.max_price_age == pre.max_price_age
    &&& post.min_confidence == pre.min_confidence
}

/// The full contract of one ingestion attempt, terminal on the first
/// failure: authority, registry throttle, then per-feed circuit breaker
/// gate, then the atomic commit with its recomputed statistics.  Every
/// failure leaves the registry unchanged, except a failed threshold test,
/// which books the breach on the feed's breaker.
pub open spec fn ingest_ensures(
    pre: PriceOracle,
    post: PriceOracle,
    caller: u64,
    asset: u64,
    price: u64,
    confidence: u64,
    source: PriceSource,
    now: i64,
    r: Result<PriceUpdated, OracleError>,
) -> bool {
    let ok_event = PriceUpdated { token_mint: asset, price, confidence, source, timestamp: now };
    if caller != pre.authority {
        r == Err::<PriceUpdated, OracleError>(OracleError::Unauthorized) && post == pre
    } else if pre.throttled(now) {
        r == Err::<PriceUpdated, OracleError>(OracleError::TooFrequentUpdate) && post == pre
    } else if !pre.has_feed(asset) {
        &&& r == Ok::<PriceUpdated, OracleError>(ok_event)
        &&& post.price_feeds@.len() == pre.price_feeds@.len() + 1
        &&& forall|j: int|
            0 <= j < pre.price_feeds@.len() ==> post.price_feeds@[j] == pre.price_feeds@[j]
        &&& fresh_feed_ok(
            post.price_feeds@[pre.price_feeds@.len() as int],
            asset,
            price,
            confidence,
            source,
            now,
            pre.max_price_age,
        )
        &&& post.last_update == now
        &&& config_unchanged(pre, post)
    } else {
        let idx = pre.feed_index(asset);
        let f = pre.feed_of(asset);
        let cb = f.circuit_breaker;
        if cb.in_cooling_lockout(now) {
            r == Err::<PriceUpdated, OracleError>(OracleError::CircuitBreakerTriggered) && post
                == pre
        } else if cb.gate_division_by_zero(f.price, f.twap) {
            r == Err::<PriceUpdated, OracleError>(OracleError::ArithmeticError) && post == pre
        } else if !cb.gate_passes(price, f.price, f.twap, f.volatility) {
            &&& r == Err::<PriceUpdated, OracleError>(OracleError::CircuitBreakerTriggered)
            &&& post.price_feeds@.len() == pre.price_feeds@.len()
            &&& forall|j: int|
                0 <= j < pre.price_feeds@.len() && j != idx ==> post.price_feeds@[j]
                    == pre.price_feeds@[j]
            &&& post.price_feeds@[idx] == PriceFeed {
                circuit_breaker: breached_breaker(cb, now),
                ..f
            }
            &&& post.last_update == pre.last_update
            &&& config_unchanged(pre, post)
        } else {
            let nh = push_evict(
                f.price_history@,
                PricePoint { price, timestamp: now, weight: confidence },
            );
            let nps = history_prices(nh);
            if commit_stats_error(nps) {
                r == Err::<PriceUpdated, OracleError>(OracleError::ArithmeticError) && post
                    == pre
            } else {
                &&& r == Ok::<PriceUpdated, OracleError>(ok_event)
                &&& post.price_feeds@.len() == pre.price_feeds@.len()
                &&& forall|j: int|
                    0 <= j < pre.price_feeds@.len() && j != idx ==> post.price_feeds@[j]
                        == pre.price_feeds@[j]
                &&& committed_feed_ok(post.price_feeds@[idx], f, price, confidence, source, now)
                &&& post.last_update == now
                &&& config_unchanged(pre, post)
            }
        }
    }
}

/// One direct single-source ingestion: the update pipeline from the write
/// API.  Terminal on the first failure with no partial mutation; on
/// success the feed, its TWAP, history and statistics are committed
/// atomically and the update event is returned.
pub fn update_price(
    oracle: &mut PriceOracle,
    caller: u64,
    asset: u64,
    price: u64,
    confidence: u64,
    source: PriceSource,
    now: i64,
) -> (r: Result<PriceUpdated, OracleError>)
    requires
        old(oracle).wf(),
    ensures
        final(oracle).wf(),
        ingest_ensures(
            *old(oracle),
            *final(oracle),
            caller,
            asset,
            price,
            confidence,
            source,
            now,
            r,
        ),
{
    if caller != oracle.authority {
        return Err(OracleError::Unauthorized);
    }
    if (now as i128) < (oracle.last_update as i128) + (oracle.update_frequency as i128) {
        return Err(OracleError::TooFrequentUpdate);
    }
    let found = oracle.find_feed(asset);
    match found {
        None => {
            // Cold start: create the feed with no smoothing.
            let mut history: Vec<PricePoint> = Vec::new();
            history.push(PricePoint { price, timestamp: now, weight: confidence });
            let feed = PriceFeed {
                token_mint: asset,
                price,
                confidence,
                last_update: now,
                twap: price,
                source,
                valid_period: oracle.max_price_age,
                fallback_source: None,
                price_history: history,
                volatility: 0,
                circuit_breaker: CircuitBreaker::zeroed(),
                volatility_metrics: None,
            };
            oracle.price_feeds.push(feed);
            oracle.last_update = now;
            proof {
                lemma_feed_index_in(old(oracle).price_feeds@, asset);
            }
            Ok(PriceUpdated { token_mint: asset, price, confidence, source, timestamp: now })
        },
        Some(i) => {
            let lockout = {
                let cb = &oracle.price_feeds[i].circuit_breaker;
                cb.is_triggered && (now as i128) < (cb.last_triggered as i128) + (
                cb.cooling_period as i128)
            };
            if lockout {
                return Err(OracleError::CircuitBreakerTriggered);
            }
            let gate = {
                let f = &oracle.price_feeds[i];
                f.circuit_breaker.gate_check(price, f.price, f.twap, f.volatility)
            };
            let passed = match gate {
                Ok(b) => b,
                Err(e) => {
                    return Err(e);
                },
            };
            if !passed {
                // Book the breach on the breaker; the stored price is not
                // mutated.
                let mut f = oracle.price_feeds.remove(i);
                let breaches = if f.circuit_breaker.consecutive_breaches == 255 {
                    255
                } else {
                    f.circuit_breaker.consecutive_breaches + 1
                };
                f.circuit_breaker.is_triggered = true;
                f.circuit_breaker.last_triggered = now;
                f.circuit_breaker.consecutive_breaches = breaches;
                oracle.price_feeds.insert(i, f);
                proof {
                    assert(oracle.price_feeds@ =~= old(oracle).price_feeds@.update(
                        i as int,
                        PriceFeed {
                            circuit_breaker: breached_breaker(
                                old(oracle).feed_of(asset).circuit_breaker,
                                now,
                            ),
                            ..old(oracle).feed_of(asset)
                        },
                    ));
                }
                return Err(OracleError::CircuitBreakerTriggered);
            }

            // Recompute the statistics over the prices the new history
            // will hold, before mutating anything: a failure here aborts
            // the update with the registry untouched.
            let mut nps = extract_history_prices(&oracle.price_feeds[i].price_history);
            if nps.len() >= PRICE_HISTORY_CAPACITY {
                nps.remove(0);
            }
            nps.push(price);
            proof {
                let point = PricePoint { price, timestamp: now, weight: confidence };
                let nh = push_evict(old(oracle).feed_of(asset).price_history@, point);
                assert(nps@ =~= history_prices(nh));
            }
            let new_vol = match volatility_from_prices(
                &nps,
                oracle.price_feeds[i].volatility,
            ) {
                Ok(v) => v,
                Err(e) => {
                    return Err(e);
                },
            };
            let new_metrics = if nps.len() >= 2 {
                match metrics_from_prices(&nps, now) {
                    Ok(m) => Some(m),
                    Err(e) => {
                        return Err(e);
                    },
                }
            } else {
                None
            };

            // Commit atomically.
            let mut f = oracle.price_feeds.remove(i);
            let old_twap = f.twap;
            f.price = price;
            f.confidence = confidence;
            f.last_update = now;
            f.source = source;
            proof {
                lemma_div_bound(
                    3 * (old_twap as int) + price,
                    4,
                    0xffff_ffff_ffff_ffffu64 as int,
                );
            }
            f.twap = ((3 * (old_twap as u128) + (price as u128)) / 4) as u64;
            record_point(&mut f.price_history, PricePoint { price, timestamp: now, weight: confidence });
            f.volatility = new_vol;
            f.volatility_metrics = new_metrics;
            f.circuit_breaker.is_triggered = false;
            f.circuit_breaker.consecutive_breaches = 0;
            oracle.price_feeds.insert(i, f);
            oracle.last_update = now;
            proof {
                assert(forall|j: int|
                    0 <= j < old(oracle).price_feeds@.len() && j != i ==> oracle.price_feeds@[j]
                        == old(oracle).price_feeds@[j]);
            }
            Ok(PriceUpdated { token_mint: asset, price, confidence, source, timestamp: now })
        },
    }
}

/// One-time registry setup: no feeds, the given freshness and trust
/// configuration, and the initialization event.
pub fn initialize_oracle(
    authority: u64,
    update_frequency: i64,
    max_price_age: i64,
    min_confidence: u64,
    now: i64,
) -> (r: (PriceOracle, OracleInitialized))
    requires
        update_frequency >= 0,
        max_price_age >= 0,
    ensures
        r.0.wf(),
        r.0.authority == authority,
        r.0.price_feeds@.len() == 0,
        r.0.last_update == now,
        r.0.is_valid,
        r.0.update_frequency == update_frequency,
        r.0.max_price_age == max_price_age,
        r.0.min_confidence == min_confidence,
        r.1 == (OracleInitialized { authority, timestamp: now }),
{
    let oracle = PriceOracle {
        authority,
        price_feeds: Vec::new(),
        last_update: now,
        is_valid: true,
        update_frequency,
        max_price_age,
        min_confidence,
    };
    let event = OracleInitialized { authority, timestamp: now };
    (oracle, event)
}

impl PriceOracle {
    /// Combines caller-supplied readings under the strategy, without
    /// touching the registry.
    pub fn aggregate_prices(
        &self,
        prices: Vec<crate::aggregate::Reading>,
        strategy: &crate::aggregate::AggregationStrategy,
    ) -> (r: Result<u64, OracleError>)
        ensures
            r == crate::aggregate::aggregate_spec(prices@, *strategy),
    {
        crate::aggregate::aggregate_readings(&prices, strategy)
    }

    /// Recomputes the asset's volatility, and its band metrics where they
    /// are present, from the current history.  Fails `ArithmeticError`
    /// exactly when a return's base price is zero or a squared-deviation
    /// sum overflows, mutating nothing in that case.
    pub fn calculate_volatility(&mut self, asset: u64, now: i64) -> (r: Result<(), OracleError>)
        requires
            old(self).wf(),
        ensures
            final(self).wf(),
            !old(self).has_feed(asset) ==> r == Err::<(), OracleError>(
                OracleError::PriceFeedNotFound,
            ) && *final(self) == *old(self),
            old(self).has_feed(asset) ==> {
                let idx = old(self).feed_index(asset);
                let f = old(self).feed_of(asset);
                let ps = history_prices(f.price_history@);
                let vol_err = (ps.len() >= 2 && has_zero_base(ps)) || (ps.len() >= 3
                    && !has_zero_base(ps) && volatility_overflow(ps));
                let recompute = f.volatility_metrics is Some && ps.len() >= 2;
                let met_err = !vol_err && recompute && metrics_overflow(ps);
                if vol_err || met_err {
                    r == Err::<(), OracleError>(OracleError::ArithmeticError) && *final(self)
                        == *old(self)
                } else {
                    &&& r == Ok::<(), OracleError>(())
                    &&& final(self).price_feeds@.len() == old(self).price_feeds@.len()
                    &&& forall|j: int|
                        0 <= j < old(self).price_feeds@.len() && j != idx
                            ==> final(self).price_feeds@[j] == old(self).price_feeds@[j]
                    &&& {
                        let nf = final(self).price_feeds@[idx];
                        &&& nf == PriceFeed {
                            volatility: nf.volatility,
                            volatility_metrics: nf.volatility_metrics,
                            ..f
                        }
                        &&& volatility_update_ok(ps, f.volatility, nf.volatility)
                        &&& if recompute {
                            nf.volatility_metrics matches Some(m) && bands_ok(
                                ps,
                                m.bollinger_bands,
                            ) && m.last_calculation == now
                        } else {
                            nf.volatility_metrics == f.volatility_metrics
                        }
                    }
                    &&& final(self).last_update == old(self).last_update
                    &&& config_unchanged(*old(self), *final(self))
                }
            },
    {
        let i = match self.find_feed(asset) {
            Some(i) => i,
            None => {
                return Err(OracleError::PriceFeedNotFound);
            },
        };
        let ps = extract_history_prices(&self.price_feeds[i].price_history);
        let new_vol = match volatility_from_prices(&ps, self.price_feeds[i].volatility) {
            Ok(v) => v,
            Err(e) => {
                return Err(e);
            },
        };
        let recompute = self.price_feeds[i].volatility_metrics.is_some() && ps.len() >= 2;
        let new_metrics = if recompute {
            match metrics_from_prices(&ps, now) {
                Ok(m) => Some(m),
                Err(e) => {
                    return Err(e);
                },
            }
        } else {
            None
        };
        let mut f = self.price_feeds.remove(i);
        f.volatility = new_vol;
        if recompute {
            f.volatility_metrics = new_metrics;
        }
        self.price_feeds.insert(i, f);
        proof {
            assert(forall|j: int|
                0 <= j < old(self).price_feeds@.len() && j != i ==> self.price_feeds@[j]
                    == old(self).price_feeds@[j]);
        }
        Ok(())
    }

    /// The most conservative confidence among the readings: the largest
    /// (widest) reported value.
    pub open spec fn agg_confidence(readings: Seq<crate::aggregate::Reading>) -> u64 {
        crate::math::seq_max(crate::aggregate::reading_weights(readings))
    }

    /// The multi-source write path: authority and registry throttle, the
    /// aggregation engine over the supplied readings, then the same
    /// circuit-breaker and commit pipeline as a direct update, with the
    /// consensus price attributed to the `Aggregate` source and the widest
    /// reading confidence.  Any failure leaves every feed unchanged,
    /// except a failed threshold test, which books the breach.
    pub fn aggregate_and_update(
        &mut self,
        caller: u64,
        asset: u64,
        readings: Vec<crate::aggregate::Reading>,
        strategy: &crate::aggregate::AggregationStrategy,
        now: i64,
    ) -> (r: Result<PriceUpdated, OracleError>)
        requires
            old(self).wf(),
        ensures
            final(self).wf(),
            caller != old(self).authority ==> r == Err::<PriceUpdated, OracleError>(
                OracleError::Unauthorized,
            ) && *final(self) == *old(self),
            caller == old(self).authority && old(self).throttled(now) ==> r == Err::<
                PriceUpdated,
                OracleError,
            >(OracleError::TooFrequentUpdate) && *final(self) == *old(self),
            caller == old(self).authority && !old(self).throttled(now) ==> match crate::aggregate::aggregate_spec(
                readings@,
                *strategy,
            ) {
                Err(e) => r == Err::<PriceUpdated, OracleError>(e) && *final(self) == *old(
                    self,
                ),
                Ok(c) => ingest_ensures(
                    *old(self),
                    *final(self),
                    caller,
                    asset,
                    c,
                    Self::agg_confidence(readings@),
                    PriceSource::Aggregate,
                    now,
                    r,
                ),
            },
    {
        if caller != self.authority {
            return Err(OracleError::Unauthorized);
        }
        if (now as i128) < (self.last_update as i128) + (self.update_frequency as i128) {
            return Err(OracleError::TooFrequentUpdate);
        }
        let candidate = match crate::aggregate::aggregate_readings(&readings, strategy) {
            Ok(c) => c,
            Err(e) => {
                return Err(e);
            },
        };
        let ws = crate::aggregate::extract_reading_weights(&readings);
        let mut conf: u64 = ws[0];
        let mut i: usize = 1;
        while i < ws.len()
            invariant
                1 <= i <= ws@.len(),
                conf == crate::math::seq_max(ws@.subrange(0, i as int)),
            decreases ws@.len() - i,
        {
            proof {
                assert(ws@.subrange(0, i + 1 as int).drop_last() =~= ws@.subrange(0, i as int));
                assert(ws@.subrange(0, i + 1 as int).last() == ws@[i as int]);
            }
            if ws[i] > conf {
                conf = ws[i];
            }
            i = i + 1;
        }
        proof {
            assert(ws@.subrange(0, ws@.len() as int) =~= ws@);
        }
        update_price(self, caller, asset, candidate, conf, PriceSource::Aggregate, now)
    }
}

/// The readings gathered from the registry's own store for the first `n`
/// zipped (source, weight) positions: a (price, weight) pair for each
/// source whose read delivers.
pub open spec fn gathered(
    o: PriceOracle,
    asset: u64,
    sources: Seq<PriceSource>,
    ws: Seq<u64>,
    now: i64,
    n: int,
) -> Seq<(u64, u64)>
    decreases n,
{
    if n <= 0 {
        Seq::empty()
    } else {
        let rest = gathered(o, asset, sources, ws, now, n - 1);
        match o.source_price_spec(asset, sources[n - 1], now) {
            Ok(p) => rest.push((p, ws[n - 1])),
            Err(_) => rest,
        }
    }
}

impl PriceOracle {
    /// What a store-backed aggregation returns: gather a reading per
    /// configured source that delivers, require the quorum, bound the
    /// spread of the gathered prices, then the weighted average.
    pub open spec fn aggregate_price_spec(
        self,
        asset: u64,
        config: AggregationConfig,
        now: i64,
    ) -> Result<u64, OracleError> {
        let n = if config.sources@.len() <= config.weights@.len() {
            config.sources@.len() as int
        } else {
            config.weights@.len() as int
        };
        let g = gathered(self, asset, config.sources@, config.weights@, now, n);
        if g.len() == 0 || g.len() < config.min_valid_sources {
            Err(OracleError::InsufficientValidSources)
        } else {
            let gps = g.map_values(|t: (u64, u64)| t.0);
            let gws = g.map_values(|t: (u64, u64)| t.1);
            if crate::math::seq_max(gps) - crate::math::seq_min(gps)
                > config.max_price_deviation {
                Err(OracleError::PriceDeviationTooHigh)
            } else {
                crate::aggregate::weighted_average_spec(gps, gws)
            }
        }
    }

    /// Aggregates over the registry's own store: reads each configured
    /// source, requires the quorum among those that deliver, guards the
    /// spread of the gathered prices, and returns their weighted average.
    /// No side effects.
    pub fn aggregate_price(&self, asset: u64, config: &AggregationConfig, now: i64) -> (r: Result<
        u64,
        OracleError,
    >)
        ensures
            r == self.aggregate_price_spec(asset, *config, now),
    {
        let n = if config.sources.len() <= config.weights.len() {
            config.sources.len()
        } else {
            config.weights.len()
        };
        let mut valid: Vec<(u64, u64)> = Vec::new();
        let mut i: usize = 0;
        while i < n
            invariant
                0 <= i <= n,
                n <= config.sources@.len(),
                n <= config.weights@.len(),
                valid@ == gathered(
                    *self,
                    asset,
                    config.sources@,
                    config.weights@,
                    now,
                    i as int,
                ),
            decreases n - i,
        {
            match self.get_price_from_source(asset, config.sources[i], now) {
                Ok(p) => {
                    valid.push((p, config.weights[i]));
                },
                Err(_) => {},
            }
            i = i + 1;
        }
        if valid.len() == 0 || valid.len() < config.min_valid_sources as usize {
            return Err(OracleError::InsufficientValidSources);
        }
        let gps = crate::aggregate::pair_firsts(&valid);
        let gws = crate::aggregate::pair_seconds(&valid);
        if crate::aggregate::spread_too_high(&gps, config.max_price_deviation) {
            return Err(OracleError::PriceDeviationTooHigh);
        }
        crate::aggregate::weighted_average(&gps, &gws)
    }

    /// Ingests a provider reading in Pyth's native shape: the price and
    /// confidence carry a decimal exponent, and both are rescaled to six
    /// implied decimals before running the ordinary update pipeline under
    /// the `Pyth` source tag.  A negative raw price, or a rescaled value
    /// beyond the `u64` range, is a reported failure.
    pub fn update_pyth_price(
        &mut self,
        caller: u64,
        asset: u64,
        raw_price: i64,
        expo: i32,
        raw_confidence: u64,
        now: i64,
    ) -> (r: Result<PriceUpdated, OracleError>)
        requires
            old(self).wf(),
        ensures
            final(self).wf(),
            caller != old(self).authority ==> r == Err::<PriceUpdated, OracleError>(
                OracleError::Unauthorized,
            ) && *final(self) == *old(self),
            caller == old(self).authority && raw_price < 0 ==> r == Err::<
                PriceUpdated,
                OracleError,
            >(OracleError::ArithmeticError) && *final(self) == *old(self),
            caller == old(self).authority && raw_price >= 0 ==> match (
                crate::provider::scaled_spec(raw_price as u64, expo + 6),
                crate::provider::scaled_spec(raw_confidence, expo + 6),
            ) {
                (Ok(p), Ok(c)) => ingest_ensures(
                    *old(self),
                    *final(self),
                    caller,
                    asset,
                    p,
                    c,
                    PriceSource::Pyth,
                    now,
                    r,
                ),
                _ => r == Err::<PriceUpdated, OracleError>(OracleError::ArithmeticError)
                    && *final(self) == *old(self),
            },
    {
        if caller != self.authority {
            return Err(OracleError::Unauthorized);
        }
        if raw_price < 0 {
            return Err(OracleError::ArithmeticError);
        }
        let price = match crate::provider::scale_to_six_decimals(raw_price as u64, expo) {
            Ok(p) => p,
            Err(e) => {
                return Err(e);
            },
        };
        let confidence = match crate::provider::scale_to_six_decimals(raw_confidence, expo) {
            Ok(c) => c,
            Err(e) => {
                return Err(e);
            },
        };
        update_price(self, caller, asset, price, confidence, PriceSource::Pyth, now)
    }

    /// Ingests a provider reading in Chainlink's native shape: the round's
    /// answer as the price, with the provider's customary high confidence.
    /// A negative answer is a reported failure.  This path carries no
    /// caller check, matching the write API it models.
    pub fn update_chainlink_price(&mut self, asset: u64, answer: i64, now: i64) -> (r: Result<
        PriceUpdated,
        OracleError,
    >)
        requires
            old(self).wf(),
        ensures
            final(self).wf(),
            answer < 0 ==> r == Err::<PriceUpdated, OracleError>(OracleError::ArithmeticError)
                && *final(self) == *old(self),
            answer >= 0 ==> ingest_ensures(
                *old(self),
                *final(self),
                old(self).authority,
                asset,
                answer as u64,
                95,
                PriceSource::Chainlink,
                now,
                r,
            ),
    {
        if answer < 0 {
            return Err(OracleError::ArithmeticError);
        }
        let caller = self.authority;
        update_price(self, caller, asset, answer as u64, 95, PriceSource::Chainlink, now)
    }
}

} // verus!
