//! Volatility statistics, band metrics, and the windowed TWAP.

use price_oracle::errors::OracleError;
use price_oracle::oracle::initialize_oracle;
use price_oracle::oracle::update_price;
use price_oracle::source::PriceSource;

#[test]
fn volatility_from_returns_exact() {
    let (mut o, _) = initialize_oracle(7, 10, 1_000_000, 0, 0);
    update_price(&mut o, 7, 42, 1000, 9, PriceSource::Internal, 10).unwrap();
    update_price(&mut o, 7, 42, 1100, 9, PriceSource::Internal, 20).unwrap();
    update_price(&mut o, 7, 42, 1200, 9, PriceSource::Internal, 30).unwrap();
    // Returns in basis points: 1000 and 909 (truncated); mean 954;
    // squared deviations 46^2 + 45^2 = 4141; variance 4141; floor sqrt 64.
    assert_eq!(o.price_feeds[0].volatility, 64);
}

#[test]
fn volatility_needs_two_returns() {
    let (mut o, _) = initialize_oracle(7, 10, 1_000_000, 0, 0);
    update_price(&mut o, 7, 42, 1000, 9, PriceSource::Internal, 10).unwrap();
    update_price(&mut o, 7, 42, 2000, 9, PriceSource::Internal, 20).unwrap();
    // One return only: the statistic keeps its prior value.
    assert_eq!(o.price_feeds[0].volatility, 0);
}

#[test]
fn band_metrics_present_after_two_points() {
    let (mut o, _) = initialize_oracle(7, 10, 1_000_000, 0, 0);
    update_price(&mut o, 7, 42, 1000, 9, PriceSource::Internal, 10).unwrap();
    assert!(o.price_feeds[0].volatility_metrics.is_none());
    update_price(&mut o, 7, 42, 2000, 9, PriceSource::Internal, 20).unwrap();
    let metrics = o.price_feeds[0].volatility_metrics.unwrap();
    // Prices [1000, 2000]: mean 1500, sample deviation sqrt(500000) = 707.
    assert_eq!(metrics.bollinger_bands.middle, 1500);
    assert_eq!(metrics.bollinger_bands.upper, 1500 + 2 * 707);
    assert_eq!(metrics.bollinger_bands.lower, 1500 - 2 * 707);
    assert_eq!(metrics.last_calculation, 20);
}

#[test]
fn calculate_volatility_recomputes_in_place() {
    let (mut o, _) = initialize_oracle(7, 10, 1_000_000, 0, 0);
    update_price(&mut o, 7, 42, 1000, 9, PriceSource::Internal, 10).unwrap();
    update_price(&mut o, 7, 42, 1100, 9, PriceSource::Internal, 20).unwrap();
    update_price(&mut o, 7, 42, 1200, 9, PriceSource::Internal, 30).unwrap();
    o.price_feeds[0].volatility = 999;
    assert_eq!(o.calculate_volatility(42, 40), Ok(()));
    assert_eq!(o.price_feeds[0].volatility, 64);
    assert_eq!(
        o.calculate_volatility(9, 40),
        Err(OracleError::PriceFeedNotFound)
    );
}

#[test]
fn windowed_twap_weights_by_recency() {
    let (mut o, _) = initialize_oracle(7, 10, 1_000_000, 0, 0);
    update_price(&mut o, 7, 42, 1000, 9, PriceSource::Internal, 10).unwrap();
    update_price(&mut o, 7, 42, 2000, 9, PriceSource::Internal, 20).unwrap();
    // At now = 25 with a 20 second window: ages 5 and 15 give weights 15
    // and 5, so (2000 * 15 + 1000 * 5) / 20 = 1750.
    assert_eq!(o.calculate_twap(42, 20, 25), Ok(1750));
}

#[test]
fn windowed_twap_stops_at_window_edge() {
    let (mut o, _) = initialize_oracle(7, 10, 1_000_000, 0, 0);
    update_price(&mut o, 7, 42, 1000, 9, PriceSource::Internal, 10).unwrap();
    update_price(&mut o, 7, 42, 2000, 9, PriceSource::Internal, 20).unwrap();
    // Only the newer point is inside a 10 second window at now = 25:
    // weight 5 on 2000 alone.
    assert_eq!(o.calculate_twap(42, 10, 25), Ok(2000));
}

#[test]
fn windowed_twap_empty_window_is_reported() {
    let (mut o, _) = initialize_oracle(7, 10, 1_000_000, 0, 0);
    update_price(&mut o, 7, 42, 1000, 9, PriceSource::Internal, 10).unwrap();
    // Every point is older than a 1 second window at now = 100.
    assert_eq!(
        o.calculate_twap(42, 1, 100),
        Err(OracleError::ArithmeticError)
    );
    assert_eq!(
        o.calculate_twap(9, 20, 25),
        Err(OracleError::PriceFeedNotFound)
    );
}
