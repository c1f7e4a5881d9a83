//! The error taxonomy of the oracle engine.
//!
//! Every error is a hard rejection of the current read or update: the
//! operation aborts with no observable side effect, and the variant tells the
//! caller whether to retry later (freshness), fix the input (trust, anomaly),
//! or fix the configuration (lookup, access).

use vstd::prelude::*;

verus! {

/// Why a read or an update of the oracle was rejected.
#[derive(Clone, Copy, Debug, PartialEq, Eq, Structural)]
pub enum OracleError {
    /// The caller is not the registry authority.
    Unauthorized,
    /// The asset has no price feed.
    PriceFeedNotFound,
    /// The feed's price is older than the registry allows.
    StalePrice,
    /// The feed's confidence interval is wider than the registry allows.
    LowConfidence,
    /// A registry-wide update was attempted before `update_frequency` elapsed.
    TooFrequentUpdate,
    /// Fewer valid source readings than the strategy's quorum.
    InsufficientValidSources,
    /// The spread of the raw readings exceeds the allowed deviation.
    PriceDeviationTooHigh,
    /// The per-feed circuit breaker rejected the candidate price, or is in
    /// its cooling lockout.
    CircuitBreakerTriggered,
    /// The candidate price moved further from the current price than the
    /// feed's limit.
    PriceChangeExceedsLimit,
    /// Neither the feed's primary source nor its fallback produced a price.
    NoValidPriceSource,
    /// A checked arithmetic operation overflowed or divided by zero.
    ArithmeticError,
}

impl OracleError {
    /// A human-readable description of the error.
    pub fn description(&self) -> (r: &'static str) {
        match self {
            OracleError::Unauthorized => "unauthorized access",
            OracleError::PriceFeedNotFound => "price feed not found",
            OracleError::StalePrice => "price data is stale",
            OracleError::LowConfidence => "price confidence too low",
            OracleError::TooFrequentUpdate => "update too frequent",
            OracleError::InsufficientValidSources => "insufficient valid price sources",
            OracleError::PriceDeviationTooHigh => "price deviation too high",
            OracleError::CircuitBreakerTriggered => "circuit breaker triggered",
            OracleError::PriceChangeExceedsLimit => "price change exceeds limit",
            OracleError::NoValidPriceSource => "no valid price source available",
            OracleError::ArithmeticError => "arithmetic overflow or division by zero",
        }
    }
}

} // verus!
