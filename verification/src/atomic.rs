//! The histogram for many writers: one atomic counter per bucket, and no
//! lock.
//!
//! Others may count while a counter is read, so nothing is promised of the
//! numbers that a read returns. What is promised is which bucket a value is
//! counted in, when counting fails, and how an answer follows from the
//! numbers that were read.

use crate::bucket::Bucket;
use crate::config::{max_bins, Config};
use crate::errors::{BuildError, Error};
use crate::layout::Layout;
use crate::percentile::{
    answer_index, needed_count, percentile_with_total, percentiles_answer,
    percentiles_with_total, spec_bucket, Histograms,
};
use crate::standard;
use std::sync::atomic::{AtomicU64, Ordering};
use vstd::prelude::*;

verus! {

/// The validated parameters of a histogram that is yet to be built.
pub struct Builder {
    config: Config,
}

impl Builder {
    /// The layout that the histogram will have.
    pub closed spec fn layout(&self) -> Layout {
        self.config@
    }

    /// Validates the parameters of the histogram: `n` may be 64 at most and
    /// must be greater than `a + b`.
    pub fn new(a: u8, b: u8, n: u8) -> (r: Result<Builder, BuildError>)
        ensures
            match r {
                Ok(builder) => Config::spec_new(a, b, n) == Ok::<Layout, BuildError>(
                    builder.layout(),
                ),
                Err(e) => Config::spec_new(a, b, n) == Err::<Layout, BuildError>(e),
            },
    {
        match Config::new(a, b, n) {
            Ok(config) => Ok(Builder { config }),
            Err(e) => Err(e),
        }
    }

    /// Allocates the histogram, with every counter at zero, or answers
    /// `TooManyBuckets` for a layout of more than `max_bins()` buckets.
    pub fn build(self) -> (r: Result<Histogram, BuildError>)
        ensures
            self.layout().total_bins() <= max_bins() <==> r is Ok,
            r is Err ==> r == Err::<Histogram, BuildError>(BuildError::TooManyBuckets),
            r is Ok ==> r->Ok_0.layout() == self.layout(),
    {
        match self.config.checked_total_bins() {
            None => Err(BuildError::TooManyBuckets),
            Some(_) => Ok(Histogram::from_config(self.config)),
        }
    }
}

/// A histogram of `u64` values that any number of writers may count into
/// at once. Its counters are 64 bits wide and wrap round.
pub struct Histogram {
    buckets: Vec<AtomicU64>,
    config: Config,
}

impl Histogram {
    #[verifier::type_invariant]
    spec fn inv(self) -> bool {
        self.buckets@.len() == self.config@.total_bins()
    }

    /// The layout of the buckets.
    pub closed spec fn layout(&self) -> Layout {
        self.config@
    }

    /// A histogram with every counter at zero.
    ///
    /// * `a` sets the bucket width in the linear region to `2^a`
    /// * `b` sets the number of buckets per power of two to `2^b`
    /// * `n` sets the largest value to `2^n - 1`, so to `u64::MAX` with 64
    ///
    /// `n` may be 64 at most and must be greater than `a + b`, and the
    /// layout may have `max_bins()` buckets at most.
    pub fn new(a: u8, b: u8, n: u8) -> (r: Result<Histogram, BuildError>)
        ensures
            match r {
                Ok(h) => Config::spec_counters(a, b, n) == Ok::<Layout, BuildError>(h.layout()),
                Err(e) => Config::spec_counters(a, b, n) == Err::<Layout, BuildError>(e),
            },
    {
        match Config::new(a, b, n) {
            Err(e) => Err(e),
            Ok(config) => match config.checked_total_bins() {
                None => Err(BuildError::TooManyBuckets),
                Some(_) => Ok(Histogram::from_config(config)),
            },
        }
    }

    /// A histogram of the given layout, which has `max_bins()` buckets at
    /// most, with every counter at zero.
    pub fn from_config(config: Config) -> (r: Histogram)
        requires
            config@.total_bins() <= max_bins(),
        ensures
            r.layout() == config@,
    {
        let bins = config.total_bins();
        let mut buckets: Vec<AtomicU64> = Vec::with_capacity(bins);
        while buckets.len() < bins
            invariant
                buckets.len() <= bins,
            decreases bins - buckets.len(),
        {
            buckets.push(AtomicU64::new(0));
        }
        Histogram { buckets, config }
    }

    /// A histogram over counters that were allocated elsewhere, one per
    /// bucket of the layout. Handing over another number of counters is a
    /// programming error.
    pub fn from_raw(a: u8, b: u8, n: u8, buckets: Vec<AtomicU64>) -> (r: Result<
        Histogram,
        BuildError,
    >)
        requires
            Config::spec_new(a, b, n) is Ok ==> buckets@.len() == Config::spec_new(
                a,
                b,
                n,
            )->Ok_0.total_bins(),
        ensures
            match r {
                Ok(h) => Config::spec_new(a, b, n) == Ok::<Layout, BuildError>(h.layout()),
                Err(e) => Config::spec_new(a, b, n) == Err::<Layout, BuildError>(e),
            },
    {
        match Config::new(a, b, n) {
            Ok(config) => Ok(Histogram { buckets, config }),
            Err(e) => Err(e),
        }
    }

    /// The layout of the buckets.
    pub fn config(&self) -> (r: Config)
        ensures
            r@ == self.layout(),
            self.layout().valid(),
    {
        let (a, b, n) = self.config.params();
        self.config
    }

    /// Counts one occurrence of `value`: `Ok` for a value that the layout
    /// can represent, `OutOfRange` for any other, which is then not counted.
    pub fn increment(&self, value: u64) -> (r: Result<(), Error>)
        ensures
            value < self.layout().limit() <==> r is Ok,
            r is Err ==> r == Err::<(), Error>(Error::OutOfRange),
    {
        self.add(value, 1)
    }

    /// Counts `count` occurrences of `value`: `Ok` for a value that the
    /// layout can represent, `OutOfRange` for any other, which is then not
    /// counted.
    pub fn add(&self, value: u64, count: u64) -> (r: Result<(), Error>)
        ensures
            value < self.layout().limit() <==> r is Ok,
            r is Err ==> r == Err::<(), Error>(Error::OutOfRange),
    {
        proof {
            use_type_invariant(self);
        }
        let bins = self.buckets.len();
        match self.config.value_to_index(value) {
            Err(e) => Err(e),
            Ok(index) => {
                self.buckets[index].fetch_add(count, Ordering::Relaxed);
                Ok(())
            },
        }
    }

    /// The counter of the bucket at `index`, as it stands at the moment of
    /// the read.
    pub fn get_count(&self, index: usize) -> (r: u64)
        requires
            index < self.layout().total_bins(),
    {
        proof {
            use_type_invariant(self);
        }
        self.buckets[index].load(Ordering::Relaxed)
    }

    /// The sum of all counters, each as it stands at the moment it is read.
    pub fn total_count(&self) -> (r: u128)
        ensures
            r <= self.layout().total_bins() * u64::MAX,
    {
        proof {
            use_type_invariant(self);
        }
        let mut sum: u128 = 0;
        let mut i: usize = 0;
        while i < self.buckets.len()
            invariant
                i <= self.buckets.len(),
                self.buckets@.len() == self.layout().total_bins(),
                sum <= i * u64::MAX,
            decreases self.buckets.len() - i,
        {
            let count = self.get_count(i);
            proof {
                assert((i + 1) * u64::MAX == i * u64::MAX + u64::MAX) by (nonlinear_arith);
                assert((i + 1) * u64::MAX <= usize::MAX * u64::MAX) by (nonlinear_arith)
                    requires
                        i + 1 <= usize::MAX,
                ;
            }
            sum = sum + count as u128;
            i = i + 1;
        }
        sum
    }

    /// A copy of the counters for a single reader, each as it stands at the
    /// moment it is read.
    pub fn load(&self) -> (r: standard::Histogram)
        ensures
            r.layout() == self.layout(),
            r.counts().len() == self.layout().total_bins(),
    {
        proof {
            use_type_invariant(self);
        }
        let mut counts: Vec<u64> = Vec::with_capacity(self.buckets.len());
        let mut i: usize = 0;
        while i < self.buckets.len()
            invariant
                i <= self.buckets.len(),
                counts.len() == i,
                self.buckets@.len() == self.layout().total_bins(),
            decreases self.buckets.len() - i,
        {
            counts.push(self.get_count(i));
            i = i + 1;
        }
        standard::Histogram::from_counts(self.config, counts)
    }

    /// Overwrites every counter with that of `other`, which has the same
    /// layout, each as it stands at the moment it is read.
    pub fn copy_from(&self, other: &Histogram)
        requires
            self.layout() == other.layout(),
    {
        proof {
            use_type_invariant(self);
            use_type_invariant(other);
        }
        let mut i: usize = 0;
        while i < self.buckets.len()
            invariant
                i <= self.buckets.len(),
                self.buckets@.len() == other.buckets@.len(),
            decreases self.buckets.len() - i,
        {
            self.buckets[i].store(other.buckets[i].load(Ordering::Relaxed), Ordering::Relaxed);
            i = i + 1;
        }
    }

    /// The histogram of what was counted between the reading `earlier` and
    /// this one, which has the same layout: for every bucket, the counter
    /// here less the counter there, each as it stands at the moment it is
    /// read.
    pub fn wrapping_sub(&self, earlier: &Histogram) -> (r: standard::Histogram)
        requires
            self.layout() == earlier.layout(),
        ensures
            r.layout() == self.layout(),
            r.counts().len() == self.layout().total_bins(),
    {
        let later = self.load();
        let before = earlier.load();
        later.wrapping_sub(&before)
    }

    /// The bucket at `index`, with its counter as it stands at the moment
    /// of the read.
    pub fn get_bucket(&self, index: usize) -> (r: Bucket)
        requires
            index < self.layout().total_bins(),
        ensures
            r.lower == self.layout().lower_bound(index as nat),
            r.upper == self.layout().upper_bound(index as nat),
            r.lower <= r.upper,
    {
        let (a, b, n) = self.config.params();
        proof {
            use_type_invariant(self);
            self.layout().lemma_bounds_ordered(index as nat);
        }
        Bucket {
            count: self.get_count(index),
            lower: self.config.index_to_lower_bound(index),
            upper: self.config.index_to_upper_bound(index),
        }
    }

    /// The buckets that answer the requested percentiles, in ascending
    /// order of the percentiles.
    ///
    /// The sum of the counters is read first, then each counter once. The
    /// answer is that of `percentiles_with_total` for the sum and the
    /// counters that were read. It is `Empty` exactly when the sum was read
    /// as zero.
    pub fn percentiles(&self, requested: &[u64]) -> (r: Result<Vec<(u64, Bucket)>, Error>)
        ensures
            r is Err ==> r == Err::<Vec<(u64, Bucket)>, Error>(Error::Empty),
            r is Ok ==> exists|counts: Seq<u64>, sum: nat|
                counts.len() == self.layout().total_bins() && sum > 0 && percentiles_answer(
                    self.layout(),
                    counts,
                    sum,
                    requested@,
                    r->Ok_0@,
                ),
    {
        let sum = self.total_count();
        let seen = self.load();
        let r = percentiles_with_total(&seen, sum, requested);
        proof {
            if r is Ok {
                assert(percentiles_answer(
                    self.layout(),
                    seen.counts(),
                    sum as nat,
                    requested@,
                    r->Ok_0@,
                ));
            }
        }
        r
    }

    /// The bucket that answers one percentile.
    ///
    /// The sum of the counters is read first, then each counter once. The
    /// answer is that of `percentile_with_total` for the sum and the
    /// counters that were read. It is `Empty` exactly when the sum was read
    /// as zero.
    pub fn percentile(&self, requested: u64) -> (r: Result<Bucket, Error>)
        ensures
            r is Err ==> r == Err::<Bucket, Error>(Error::Empty),
            r is Ok ==> exists|counts: Seq<u64>, sum: nat|
                counts.len() == self.layout().total_bins() && sum > 0 && r->Ok_0 == spec_bucket(
                    self.layout(),
                    counts,
                    answer_index(counts, needed_count(requested, sum)),
                ),
            r is Ok ==> r->Ok_0.lower <= r->Ok_0.upper,
    {
        let sum = self.total_count();
        let seen = self.load();
        let r = percentile_with_total(&seen, sum, requested);
        proof {
            if r is Ok {
                assert(r->Ok_0 == spec_bucket(
                    self.layout(),
                    seen.counts(),
                    answer_index(seen.counts(), needed_count(requested, sum as nat)),
                ));
            }
        }
        r
    }

    /// The counters, one per bucket.
    pub fn as_slice(&self) -> (r: &[AtomicU64])
        ensures
            r@.len() == self.layout().total_bins(),
    {
        proof {
            use_type_invariant(self);
        }
        self.buckets.as_slice()
    }
}

} // verus!
