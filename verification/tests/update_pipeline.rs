//! The write path: initialization, direct ingestion, the registry
//! throttle, the exponential TWAP smoothing, history bounds, and the
//! circuit breaker's gate and cooling lockout.

use price_oracle::errors::OracleError;
use price_oracle::feed::CircuitBreaker;
use price_oracle::feed::PriceFeed;
use price_oracle::feed::PRICE_HISTORY_CAPACITY;
use price_oracle::oracle::initialize_oracle;
use price_oracle::oracle::update_price;
use price_oracle::oracle::PriceOracle;
use price_oracle::source::PriceSource;

fn guarded_feed(price: u64, breaker: CircuitBreaker) -> PriceFeed {
    PriceFeed {
        token_mint: 42,
        price,
        confidence: 10,
        last_update: 0,
        twap: price,
        source: PriceSource::Internal,
        valid_period: 1_000_000,
        fallback_source: None,
        price_history: Vec::new(),
        volatility: 0,
        circuit_breaker: breaker,
        volatility_metrics: None,
    }
}

fn oracle_with(feeds: Vec<PriceFeed>) -> PriceOracle {
    PriceOracle {
        authority: 1,
        price_feeds: feeds,
        last_update: 0,
        is_valid: true,
        update_frequency: 0,
        max_price_age: 1_000_000,
        min_confidence: 0,
    }
}

#[test]
fn initialization_sets_configuration() {
    let (o, event) = initialize_oracle(7, 60, 300, 5, 1000);
    assert_eq!(o.authority, 7);
    assert_eq!(o.update_frequency, 60);
    assert_eq!(o.max_price_age, 300);
    assert_eq!(o.min_confidence, 5);
    assert!(o.price_feeds.is_empty());
    assert_eq!(event.authority, 7);
    assert_eq!(event.timestamp, 1000);
}

#[test]
fn cold_start_uses_price_as_twap() {
    let (mut o, _) = initialize_oracle(7, 10, 300, 0, 0);
    let r = update_price(&mut o, 7, 42, 1234, 9, PriceSource::Pyth, 10);
    let event = r.unwrap();
    assert_eq!(event.price, 1234);
    assert_eq!(event.token_mint, 42);
    assert_eq!(o.get_twap(42), Ok(1234));
    assert_eq!(o.price_feeds[0].price_history.len(), 1);
    assert_eq!(o.price_feeds[0].volatility, 0);
    assert!(o.price_feeds[0].volatility_metrics.is_none());
}

#[test]
fn ema_smoothing_is_exact() {
    let (mut o, _) = initialize_oracle(7, 10, 300, 0, 0);
    update_price(&mut o, 7, 42, 1000, 9, PriceSource::Internal, 10).unwrap();
    update_price(&mut o, 7, 42, 2000, 9, PriceSource::Internal, 20).unwrap();
    // (3 * 1000 + 2000) / 4
    assert_eq!(o.get_twap(42), Ok(1250));
    update_price(&mut o, 7, 42, 1250, 9, PriceSource::Internal, 30).unwrap();
    // Equal price and TWAP leave the TWAP in place.
    assert_eq!(o.get_twap(42), Ok(1250));
}

#[test]
fn unauthorized_caller_is_rejected() {
    let (mut o, _) = initialize_oracle(7, 10, 300, 0, 0);
    let r = update_price(&mut o, 8, 42, 1000, 9, PriceSource::Internal, 10);
    assert_eq!(r, Err(OracleError::Unauthorized));
    assert!(o.price_feeds.is_empty());
}

#[test]
fn throttle_rejects_too_frequent_updates() {
    let (mut o, _) = initialize_oracle(7, 10, 300, 0, 0);
    update_price(&mut o, 7, 42, 1000, 9, PriceSource::Internal, 10).unwrap();
    let r = update_price(&mut o, 7, 42, 1100, 9, PriceSource::Internal, 19);
    assert_eq!(r, Err(OracleError::TooFrequentUpdate));
    // The minimum spacing is inclusive.
    let r = update_price(&mut o, 7, 42, 1100, 9, PriceSource::Internal, 20);
    assert!(r.is_ok());
}

#[test]
fn history_evicts_oldest_at_capacity() {
    let (mut o, _) = initialize_oracle(7, 1, 1_000_000, 0, 0);
    for k in 0..(PRICE_HISTORY_CAPACITY as u64 + 1) {
        update_price(
            &mut o,
            7,
            42,
            1_000_000 + k,
            9,
            PriceSource::Internal,
            (k as i64 + 1) * 10,
        )
        .unwrap();
    }
    let history = &o.price_feeds[0].price_history;
    assert_eq!(history.len(), PRICE_HISTORY_CAPACITY);
    // The very first point was evicted.
    assert_eq!(history[0].price, 1_000_001);
    assert_eq!(history[PRICE_HISTORY_CAPACITY - 1].price,
        1_000_000 + PRICE_HISTORY_CAPACITY as u64);
}

#[test]
fn breaker_boundary_via_update() {
    // max_price_change_percentage of 500 basis points on a price of 1000:
    // 1050 is exactly 5% and passes.
    let breaker = CircuitBreaker {
        max_price_change_percentage: 500,
        ..CircuitBreaker::zeroed()
    };
    let mut o = oracle_with(vec![guarded_feed(1000, breaker)]);
    let r = update_price(&mut o, 1, 42, 1050, 10, PriceSource::Internal, 10);
    assert!(r.is_ok());
    assert_eq!(o.get_price(42, 10), Ok(1050));

    // 1051 is just over 5% and trips the breaker; the price stays put.
    let mut o = oracle_with(vec![guarded_feed(1000, breaker)]);
    let r = update_price(&mut o, 1, 42, 1051, 10, PriceSource::Internal, 10);
    assert_eq!(r, Err(OracleError::CircuitBreakerTriggered));
    assert_eq!(o.get_price(42, 10), Ok(1000));
    let cb = &o.price_feeds[0].circuit_breaker;
    assert!(cb.is_triggered);
    assert_eq!(cb.last_triggered, 10);
    assert_eq!(cb.consecutive_breaches, 1);
}

#[test]
fn cooling_lockout_blocks_everything() {
    // Tripped at T = 100 with a 60 second cooling period.
    let breaker = CircuitBreaker {
        max_price_change_percentage: 10_000,
        cooling_period: 60,
        last_triggered: 100,
        is_triggered: true,
        consecutive_breaches: 1,
        ..CircuitBreaker::zeroed()
    };
    let mut o = oracle_with(vec![guarded_feed(1000, breaker)]);
    // At T + 30 even an unchanged price is rejected.
    let r = update_price(&mut o, 1, 42, 1000, 10, PriceSource::Internal, 130);
    assert_eq!(r, Err(OracleError::CircuitBreakerTriggered));
    assert_eq!(o.get_price(42, 130), Ok(1000));
    // At T + 61 an in-threshold update succeeds and clears the trigger.
    let r = update_price(&mut o, 1, 42, 1010, 10, PriceSource::Internal, 161);
    assert!(r.is_ok());
    assert!(!o.price_feeds[0].circuit_breaker.is_triggered);
    assert_eq!(o.price_feeds[0].circuit_breaker.consecutive_breaches, 0);
    assert_eq!(o.get_price(42, 161), Ok(1010));
}

#[test]
fn gate_on_zero_price_reports_arithmetic_error() {
    let breaker = CircuitBreaker {
        max_price_change_percentage: 500,
        ..CircuitBreaker::zeroed()
    };
    let mut o = oracle_with(vec![guarded_feed(0, breaker)]);
    let r = update_price(&mut o, 1, 42, 1000, 10, PriceSource::Internal, 10);
    assert_eq!(r, Err(OracleError::ArithmeticError));
}

#[test]
fn standalone_breaker_check_conditions() {
    let breaker = CircuitBreaker {
        max_price_change_percentage: 500,
        volatility_threshold: 100,
        volume_threshold: 10,
        liquidity_threshold: 20,
        max_price_deviation_from_twap: 10_000,
        ..CircuitBreaker::zeroed()
    };
    // Exactly 5% change passes all five conditions.
    assert_eq!(breaker.check_conditions(1050, 1000, 1000, 50, 10, 20), Ok(()));
    // One basis point over trips it.
    assert_eq!(
        breaker.check_conditions(1051, 1000, 1000, 50, 10, 20),
        Err(OracleError::CircuitBreakerTriggered)
    );
    // Too little volume trips it too.
    assert_eq!(
        breaker.check_conditions(1050, 1000, 1000, 50, 9, 20),
        Err(OracleError::CircuitBreakerTriggered)
    );
}

#[test]
fn standalone_price_change_check() {
    let breaker = CircuitBreaker {
        max_price_change_percentage: 500,
        ..CircuitBreaker::zeroed()
    };
    let o = oracle_with(vec![guarded_feed(1000, breaker)]);
    assert_eq!(o.check_circuit_breaker(42, 1050, 10), Ok(()));
    assert_eq!(
        o.check_circuit_breaker(42, 1051, 10),
        Err(OracleError::PriceChangeExceedsLimit)
    );
    assert_eq!(
        o.check_circuit_breaker(9, 1051, 10),
        Err(OracleError::PriceFeedNotFound)
    );
}
