//! A bucket of a histogram: a range of values and how often they occurred.

use vstd::prelude::*;

verus! {

/// The inclusive range of values that a bucket covers, with the number of
/// observations counted in it at the moment it was read.
#[derive(Clone, Copy, Debug, PartialEq, Eq, Structural)]
pub struct Bucket {
    pub count: u64,
    pub lower: u64,
    pub upper: u64,
}

impl Bucket {
    /// The number of observations in the bucket.
    pub fn count(&self) -> (r: u64)
        ensures
            r == self.count,
    {
        self.count
    }

    /// The values that the bucket covers, both ends included.
    pub fn range(&self) -> (r: std::ops::RangeInclusive<u64>)
        ensures
            r@.start == self.lower,
            r@.end == self.upper,
            !r@.exhausted,
    {
        std::ops::RangeInclusive::new(self.lower, self.upper)
    }

    /// The smallest value that the bucket covers.
    pub fn lower(&self) -> (r: u64)
        ensures
            r == self.lower,
    {
        self.lower
    }

    /// The largest value that the bucket covers.
    pub fn upper(&self) -> (r: u64)
        ensures
            r == self.upper,
    {
        self.upper
    }
}

} // verus!
