//! The closed set of price providers and of aggregation methods.

use vstd::prelude::*;

verus! {

/// Where a price came from.  A closed set: dispatch over providers is a
/// single exhaustive match, so adding a provider stays auditable.
#[derive(Clone, Copy, Debug, PartialEq, Eq, Structural)]
pub enum PriceSource {
    Chainlink,
    Pyth,
    Switchboard,
    UniswapV3,
    Internal,
    Aggregate,
    Fallback,
    TWAP,
}

impl PriceSource {
    /// Whether this tag names an external provider whose readings are cached
    /// in the feed under the same tag (as opposed to the registry's own
    /// derived values).
    pub open spec fn spec_is_provider(self) -> bool {
        self == PriceSource::Chainlink || self == PriceSource::Pyth
            || self == PriceSource::Switchboard || self == PriceSource::UniswapV3
    }

    /// Executable twin of [`Self::spec_is_provider`].
    pub fn is_provider(&self) -> (r: bool)
        ensures
            r == self.spec_is_provider(),
    {
        match self {
            PriceSource::Chainlink => true,
            PriceSource::Pyth => true,
            PriceSource::Switchboard => true,
            PriceSource::UniswapV3 => true,
            _ => false,
        }
    }
}

/// How a set of concurrent source readings is combined into one price.
#[derive(Clone, Copy, Debug, PartialEq, Eq, Structural)]
pub enum AggregationMethod {
    WeightedAverage,
    Median,
    TrimmedMean,
    VolumeWeighted,
    ConfidenceWeighted,
    WeightedMedian,
    KalmanFilter,
    OutlierAdjusted,
}

} // verus!
