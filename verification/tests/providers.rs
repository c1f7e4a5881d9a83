//! Provider-shaped ingestion and the store-backed aggregation.

use price_oracle::errors::OracleError;
use price_oracle::oracle::initialize_oracle;
use price_oracle::oracle::update_price;
use price_oracle::oracle::AggregationConfig;
use price_oracle::source::PriceSource;

#[test]
fn pyth_reading_is_rescaled_to_six_decimals() {
    let (mut o, _) = initialize_oracle(7, 10, 1_000_000, 0, 0);
    // A reading of 123456789 at exponent -8 is 1.23456789; at six
    // implied decimals that rounds down to 1234567.
    let event = o.update_pyth_price(7, 42, 123_456_789, -8, 200_000_000, 10).unwrap();
    assert_eq!(event.price, 1_234_567);
    assert_eq!(event.source, PriceSource::Pyth);
    // The confidence is rescaled the same way.
    assert_eq!(event.confidence, 2_000_000);
    assert_eq!(o.get_price(42, 10), Ok(1_234_567));
}

#[test]
fn pyth_scaling_up_checks_overflow() {
    let (mut o, _) = initialize_oracle(7, 10, 1_000_000, 0, 0);
    // Exponent 0 multiplies by a million.
    let event = o.update_pyth_price(7, 42, 5, 0, 1, 10).unwrap();
    assert_eq!(event.price, 5_000_000);
    // A value that cannot be rescaled into a u64 is a reported failure.
    let r = o.update_pyth_price(7, 43, i64::MAX, 3, 1, 20);
    assert_eq!(r, Err(OracleError::ArithmeticError));
}

#[test]
fn pyth_negative_price_is_rejected() {
    let (mut o, _) = initialize_oracle(7, 10, 1_000_000, 0, 0);
    let r = o.update_pyth_price(7, 42, -5, 0, 1, 10);
    assert_eq!(r, Err(OracleError::ArithmeticError));
    assert!(o.price_feeds.is_empty());
}

#[test]
fn pyth_path_checks_the_caller() {
    let (mut o, _) = initialize_oracle(7, 10, 1_000_000, 0, 0);
    let r = o.update_pyth_price(8, 42, 5, 0, 1, 10);
    assert_eq!(r, Err(OracleError::Unauthorized));
}

#[test]
fn chainlink_round_is_ingested_with_high_confidence() {
    let (mut o, _) = initialize_oracle(7, 10, 1_000_000, 0, 0);
    let event = o.update_chainlink_price(42, 5_000_000, 10).unwrap();
    assert_eq!(event.price, 5_000_000);
    assert_eq!(event.confidence, 95);
    assert_eq!(event.source, PriceSource::Chainlink);
    let r = o.update_chainlink_price(43, -1, 20);
    assert_eq!(r, Err(OracleError::ArithmeticError));
}

#[test]
fn store_backed_aggregation_gathers_and_averages() {
    let (mut o, _) = initialize_oracle(7, 10, 1_000_000, 0, 0);
    update_price(&mut o, 7, 42, 1000, 9, PriceSource::Internal, 10).unwrap();
    update_price(&mut o, 7, 42, 2000, 9, PriceSource::Internal, 20).unwrap();
    // TWAP is (3 * 1000 + 2000) / 4 = 1250; the Internal tag reads the
    // plain price 2000.  Weights 1 and 3: (2000 + 3 * 1250) / 4 = 1437.
    let config = AggregationConfig {
        sources: vec![PriceSource::Internal, PriceSource::TWAP],
        weights: vec![1, 3],
        min_valid_sources: 2,
        max_price_deviation: 10_000,
    };
    assert_eq!(o.aggregate_price(42, &config, 25), Ok(1437));
}

#[test]
fn store_backed_aggregation_requires_quorum() {
    let (mut o, _) = initialize_oracle(7, 10, 1_000_000, 0, 0);
    update_price(&mut o, 7, 42, 1000, 9, PriceSource::Internal, 10).unwrap();
    // The Pyth tag fails (the feed is Internal-sourced), leaving one
    // valid reading against a quorum of two.
    let config = AggregationConfig {
        sources: vec![PriceSource::Internal, PriceSource::Pyth],
        weights: vec![1, 1],
        min_valid_sources: 2,
        max_price_deviation: 10_000,
    };
    assert_eq!(
        o.aggregate_price(42, &config, 15),
        Err(OracleError::InsufficientValidSources)
    );
}

#[test]
fn store_backed_aggregation_guards_spread() {
    let (mut o, _) = initialize_oracle(7, 10, 1_000_000, 0, 0);
    update_price(&mut o, 7, 42, 1000, 9, PriceSource::Internal, 10).unwrap();
    update_price(&mut o, 7, 42, 2000, 9, PriceSource::Internal, 20).unwrap();
    // Price 2000 against TWAP 1250: the spread 750 exceeds 500.
    let config = AggregationConfig {
        sources: vec![PriceSource::Internal, PriceSource::TWAP],
        weights: vec![1, 1],
        min_valid_sources: 2,
        max_price_deviation: 500,
    };
    assert_eq!(
        o.aggregate_price(42, &config, 25),
        Err(OracleError::PriceDeviationTooHigh)
    );
}

#[test]
fn error_descriptions_name_the_failure() {
    assert_eq!(
        OracleError::StalePrice.description(),
        "price data is stale"
    );
    assert_eq!(
        OracleError::CircuitBreakerTriggered.description(),
        "circuit breaker triggered"
    );
}
