//! The aggregation engine: every strategy on concrete readings, the
//! quorum, and the spread guard.

use price_oracle::aggregate::aggregate_readings;
use price_oracle::aggregate::AggregationStrategy;
use price_oracle::aggregate::Reading;
use price_oracle::errors::OracleError;
use price_oracle::oracle::initialize_oracle;
use price_oracle::oracle::update_price;
use price_oracle::source::AggregationMethod;
use price_oracle::source::PriceSource;

fn strategy(method: AggregationMethod) -> AggregationStrategy {
    AggregationStrategy {
        method,
        min_valid_sources: 1,
        max_deviation: u64::MAX,
        weights: Vec::new(),
        outlier_threshold: 0,
    }
}

fn readings(prices: &[u64]) -> Vec<Reading> {
    prices
        .iter()
        .map(|&p| (p, 90, PriceSource::Internal))
        .collect()
}

#[test]
fn median_upper_tie_break() {
    // Even length: index len / 2 picks the upper median, no interpolation.
    let r = aggregate_readings(
        &readings(&[100, 200, 300, 400]),
        &strategy(AggregationMethod::Median),
    );
    assert_eq!(r, Ok(300));
}

#[test]
fn median_odd_length() {
    let r = aggregate_readings(
        &readings(&[400, 100, 300]),
        &strategy(AggregationMethod::Median),
    );
    assert_eq!(r, Ok(300));
}

#[test]
fn weighted_average_exact() {
    let mut s = strategy(AggregationMethod::WeightedAverage);
    s.weights = vec![1, 3];
    // (1000 * 1 + 2000 * 3) / 4 = 1750
    let r = aggregate_readings(&readings(&[1000, 2000]), &s);
    assert_eq!(r, Ok(1750));
}

#[test]
fn weighted_average_zero_weights_fail() {
    let mut s = strategy(AggregationMethod::WeightedAverage);
    s.weights = vec![0, 0];
    let r = aggregate_readings(&readings(&[1000, 2000]), &s);
    assert_eq!(r, Err(OracleError::ArithmeticError));
}

#[test]
fn volume_weighted_uses_reading_column() {
    // The second column carries volumes: (1000 * 10 + 2000 * 30) / 40.
    let rs = vec![
        (1000u64, 10u64, PriceSource::Internal),
        (2000u64, 30u64, PriceSource::Internal),
    ];
    let r = aggregate_readings(&rs, &strategy(AggregationMethod::VolumeWeighted));
    assert_eq!(r, Ok(1750));
}

#[test]
fn confidence_weighted_uses_reading_column() {
    let rs = vec![
        (1000u64, 50u64, PriceSource::Internal),
        (3000u64, 150u64, PriceSource::Internal),
    ];
    // (1000 * 50 + 3000 * 150) / 200 = 2500
    let r = aggregate_readings(&rs, &strategy(AggregationMethod::ConfidenceWeighted));
    assert_eq!(r, Ok(2500));
}

#[test]
fn weighted_median_cumulative_half() {
    let mut s = strategy(AggregationMethod::WeightedMedian);
    s.weights = vec![1, 1, 6];
    // Sorted by price with weights [1, 1, 6]: the cumulative weight
    // reaches half of 8 only at the third price.
    let r = aggregate_readings(&readings(&[100, 200, 300]), &s);
    assert_eq!(r, Ok(300));

    let mut s = strategy(AggregationMethod::WeightedMedian);
    s.weights = vec![6, 1, 1];
    let r = aggregate_readings(&readings(&[100, 200, 300]), &s);
    assert_eq!(r, Ok(100));
}

#[test]
fn trimmed_mean_drops_tails() {
    let mut s = strategy(AggregationMethod::TrimmedMean);
    // 2500 basis points: one element from each tail of a four-element list.
    s.outlier_threshold = 2500;
    let r = aggregate_readings(&readings(&[1, 100, 200, 10_000]), &s);
    assert_eq!(r, Ok(150));
}

#[test]
fn trimmed_mean_overtrimming_fails() {
    let mut s = strategy(AggregationMethod::TrimmedMean);
    s.outlier_threshold = 5000;
    let r = aggregate_readings(&readings(&[1, 100, 200, 10_000]), &s);
    assert_eq!(r, Err(OracleError::InsufficientValidSources));
}

#[test]
fn kalman_filter_exact() {
    let rs = vec![
        (1000u64, 90u64, PriceSource::Pyth),
        (2000u64, 80u64, PriceSource::Chainlink),
    ];
    // est = 1000, err = 10000; m = 2000, gain = 10^8 / 12000 = 8333;
    // est += 8333 * 1000 / 10000 = 833.
    let r = aggregate_readings(&rs, &strategy(AggregationMethod::KalmanFilter));
    assert_eq!(r, Ok(1833));
}

#[test]
fn kalman_filter_order_matters() {
    let forward = vec![
        (1000u64, 90u64, PriceSource::Pyth),
        (2000u64, 80u64, PriceSource::Chainlink),
    ];
    let backward = vec![
        (2000u64, 80u64, PriceSource::Chainlink),
        (1000u64, 90u64, PriceSource::Pyth),
    ];
    let a = aggregate_readings(&forward, &strategy(AggregationMethod::KalmanFilter));
    let b = aggregate_readings(&backward, &strategy(AggregationMethod::KalmanFilter));
    assert_ne!(a, b);
}

#[test]
fn outlier_adjusted_drops_far_readings() {
    let mut s = strategy(AggregationMethod::OutlierAdjusted);
    s.outlier_threshold = 3000;
    // Mean of [1000, 1100, 9000] is 3700; only 9000 deviates by more
    // than 3000, so the remainder averages to 1050.
    let r = aggregate_readings(&readings(&[1000, 1100, 9000]), &s);
    assert_eq!(r, Ok(1050));
}

#[test]
fn outlier_adjusted_everything_dropped_fails() {
    let mut s = strategy(AggregationMethod::OutlierAdjusted);
    s.outlier_threshold = 10;
    // Mean of [0, 10000] is 5000 and both readings sit 5000 away.
    let r = aggregate_readings(&readings(&[0, 10_000]), &s);
    assert_eq!(r, Err(OracleError::InsufficientValidSources));
}

#[test]
fn deviation_guard_checks_raw_spread() {
    let mut s = strategy(AggregationMethod::WeightedAverage);
    s.weights = vec![1, 1, 1];
    s.max_deviation = 50;
    // The spread 1060 - 1000 = 60 exceeds 50, so the guard fires even
    // though the weighted average itself computes fine.
    let r = aggregate_readings(&readings(&[1000, 1040, 1060]), &s);
    assert_eq!(r, Err(OracleError::PriceDeviationTooHigh));
}

#[test]
fn aggregation_quorum_without_mutation() {
    let (mut o, _) = initialize_oracle(7, 10, 1_000_000, 0, 0);
    update_price(&mut o, 7, 42, 1000, 9, PriceSource::Internal, 10).unwrap();
    let before = o.get_price(42, 20);

    let mut s = strategy(AggregationMethod::Median);
    s.min_valid_sources = 3;
    let rs = readings(&[1000, 1010]);
    let r = o.aggregate_and_update(7, 42, rs, &s, 20);
    assert_eq!(r, Err(OracleError::InsufficientValidSources));
    // No feed was touched.
    assert_eq!(o.get_price(42, 20), before);
    assert_eq!(o.last_update, 10);
}

#[test]
fn aggregate_and_update_commits_consensus() {
    let (mut o, _) = initialize_oracle(7, 10, 1_000_000, 0, 0);
    update_price(&mut o, 7, 42, 1000, 9, PriceSource::Internal, 10).unwrap();

    let mut s = strategy(AggregationMethod::Median);
    s.max_deviation = 1000;
    let rs = readings(&[990, 1000, 1010]);
    let event = o.aggregate_and_update(7, 42, rs, &s, 20).unwrap();
    assert_eq!(event.price, 1000);
    assert_eq!(event.source, PriceSource::Aggregate);
    assert_eq!(o.get_price(42, 20), Ok(1000));
    assert_eq!(o.price_feeds[0].source, PriceSource::Aggregate);
}

#[test]
fn empty_readings_fail_even_with_zero_quorum() {
    let mut s = strategy(AggregationMethod::Median);
    s.min_valid_sources = 0;
    let r = aggregate_readings(&Vec::new(), &s);
    assert_eq!(r, Err(OracleError::InsufficientValidSources));
}
