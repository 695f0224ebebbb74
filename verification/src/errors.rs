use vstd::prelude::*;

verus! {

/// Why a histogram or a sliding window could not be constructed.
#[derive(Clone, Copy, Debug, PartialEq, Eq, Structural)]
pub enum BuildError {
    /// The maximum value power `n` exceeds 64.
    MaxPowerTooHigh,
    /// The maximum value power `n` is not greater than `a + b`.
    MaxPowerTooLow,
    /// The layout has more buckets than the machine can hold counters for.
    TooManyBuckets,
    /// The window resolution is shorter than one microsecond.
    ResolutionTooSmall,
    /// The window resolution does not fit a `u64` in nanoseconds.
    ResolutionTooLarge,
    /// The window has too many slices for its resolution, for the ring, or
    /// for the time that the clock has counted.
    SpanTooLong,
}

/// Why an operation on a constructed histogram failed.
#[derive(Clone, Copy, Debug, PartialEq, Eq, Structural)]
pub enum Error {
    /// A percentile was requested from a histogram that holds no observations.
    Empty,
    /// The value lies beyond the largest value the histogram can represent.
    OutOfRange,
}

} // verus!
