//! Reads: price, TWAP, staleness, confidence, and the fallback path.

use price_oracle::errors::OracleError;
use price_oracle::feed::CircuitBreaker;
use price_oracle::feed::PriceFeed;
use price_oracle::oracle::update_price;
use price_oracle::oracle::PriceOracle;
use price_oracle::source::PriceSource;

fn feed_with(token_mint: u64, price: u64, confidence: u64, last_update: i64) -> PriceFeed {
    PriceFeed {
        token_mint,
        price,
        confidence,
        last_update,
        twap: price,
        source: PriceSource::Internal,
        valid_period: 1_000_000,
        fallback_source: None,
        price_history: Vec::new(),
        volatility: 0,
        circuit_breaker: CircuitBreaker::zeroed(),
        volatility_metrics: None,
    }
}

fn oracle_with(feeds: Vec<PriceFeed>) -> PriceOracle {
    PriceOracle {
        authority: 1,
        price_feeds: feeds,
        last_update: 0,
        is_valid: true,
        update_frequency: 0,
        max_price_age: 100,
        min_confidence: 5,
    }
}

#[test]
fn missing_feed_is_reported() {
    let o = oracle_with(Vec::new());
    assert_eq!(o.get_price(42, 0), Err(OracleError::PriceFeedNotFound));
    assert_eq!(o.get_twap(42), Err(OracleError::PriceFeedNotFound));
}

#[test]
fn stale_price_boundary() {
    let o = oracle_with(vec![feed_with(42, 1000, 10, 0)]);
    // Exactly at the boundary the read succeeds; one second past it fails.
    assert_eq!(o.get_price(42, 100), Ok(1000));
    assert_eq!(o.get_price(42, 101), Err(OracleError::StalePrice));
}

#[test]
fn low_confidence_is_rejected() {
    let o = oracle_with(vec![feed_with(42, 1000, 4, 0)]);
    assert_eq!(o.get_price(42, 0), Err(OracleError::LowConfidence));
}

#[test]
fn idempotent_read() {
    let mut o = oracle_with(Vec::new());
    let r = update_price(&mut o, 1, 42, 1000, 10, PriceSource::Internal, 10);
    assert!(r.is_ok());
    let first = o.get_price(42, 20);
    let second = o.get_price(42, 20);
    assert_eq!(first, second);
    assert_eq!(first, Ok(1000));
}

#[test]
fn fallback_to_twap_rescues_stale_primary() {
    let mut feed = feed_with(42, 1000, 10, 0);
    feed.source = PriceSource::Pyth;
    feed.fallback_source = Some(PriceSource::TWAP);
    feed.twap = 975;
    let o = oracle_with(vec![feed]);
    // At 101 the Pyth-tagged read is stale, so the fallback serves the TWAP.
    assert_eq!(o.get_price_with_fallback(42, 101), Ok(975));
    // While fresh, the primary source serves the plain price.
    assert_eq!(o.get_price_with_fallback(42, 50), Ok(1000));
}

#[test]
fn no_fallback_means_no_valid_source() {
    let mut feed = feed_with(42, 1000, 10, 0);
    feed.source = PriceSource::Pyth;
    let o = oracle_with(vec![feed]);
    assert_eq!(
        o.get_price_with_fallback(42, 101),
        Err(OracleError::NoValidPriceSource)
    );
}

#[test]
fn provider_tag_must_match_feed_source() {
    let mut feed = feed_with(42, 1000, 10, 0);
    feed.source = PriceSource::Chainlink;
    let o = oracle_with(vec![feed]);
    // The Uniswap tag reads only Uniswap-sourced data.
    assert_eq!(
        o.get_uniswap_price(42, 0),
        Err(OracleError::NoValidPriceSource)
    );
}
