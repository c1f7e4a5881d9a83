//! A price-oracle aggregation and anomaly-containment engine.
//!
//! The library keeps one price feed per asset, combines readings from several
//! mutually distrusting sources into a single consensus price, smooths prices
//! into a time-weighted average, tracks return-based volatility, and gates
//! every update behind a circuit breaker.  All arithmetic is integer
//! fixed-point (prices carry six implied decimals, percentages are basis
//! points) and every overflow or division by zero is a checked, reported
//! failure rather than a panic.
//!
//! Reading from the host platform's account storage, and the provider SDKs
//! that decode raw on-chain data, sit outside this crate: callers hand in
//! plain values (prices, confidences, timestamps) and get plain values back.

pub mod aggregate;
pub mod errors;
pub mod feed;
pub mod laws;
pub mod math;
pub mod oracle;
pub mod provider;
pub mod sort;
pub mod source;
pub mod stats;
pub mod twap;
