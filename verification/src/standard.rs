//! The histogram for a single writer: plain counters behind exclusive
//! access.

use crate::config::{max_bins, Config};
use crate::counts::{
    differences, lemma_total_bound, lemma_total_step, lemma_total_take_all, total,
    wrapping_difference, wrapping_sum, zeros,
};
use crate::errors::{BuildError, Error};
use crate::layout::Layout;
use crate::bucket::Bucket;
use crate::percentile::{
    answer_index, get_bucket, needed_count, percentile, percentiles, percentiles_answer,
    spec_bucket, Histograms,
};
use vstd::prelude::*;

verus! {

/// The validated parameters of a histogram that is yet to be built.
pub struct Builder {
    config: Config,
}

impl Builder {
    /// The layout that the histogram will have.
    pub closed spec fn layout(&self) -> Layout {
        self.config@
    }

    /// Validates the parameters of the histogram: `n` may be 64 at most and
    /// must be greater than `a + b`.
    pub fn new(a: u8, b: u8, n: u8) -> (r: Result<Builder, BuildError>)
        ensures
            match r {
                Ok(builder) => Config::spec_new(a, b, n) == Ok::<Layout, BuildError>(
                    builder.layout(),
                ),
                Err(e) => Config::spec_new(a, b, n) == Err::<Layout, BuildError>(e),
            },
    {
        match Config::new(a, b, n) {
            Ok(config) => Ok(Builder { config }),
            Err(e) => Err(e),
        }
    }

    /// Allocates the histogram, with every counter at zero, or answers
    /// `TooManyBuckets` for a layout of more than `max_bins()` buckets.
    pub fn build(self) -> (r: Result<Histogram, BuildError>)
        ensures
            self.layout().total_bins() <= max_bins() <==> r is Ok,
            r is Err ==> r == Err::<Histogram, BuildError>(BuildError::TooManyBuckets),
            r is Ok ==> r->Ok_0.layout() == self.layout() && r->Ok_0.counts() == zeros(
                self.layout().total_bins(),
            ),
    {
        match self.config.checked_total_bins() {
            None => Err(BuildError::TooManyBuckets),
            Some(_) => Ok(Histogram::from_config(self.config)),
        }
    }
}

/// A histogram of `u64` values for a single writer. Its counters are 64
/// bits wide and wrap round.
pub struct Histogram {
    buckets: Vec<u64>,
    config: Config,
}

impl Histograms for Histogram {
    closed spec fn layout(&self) -> Layout {
        self.config@
    }

    closed spec fn counts(&self) -> Seq<u64> {
        self.buckets@
    }

    fn config(&self) -> (r: Config) {
        proof {
            use_type_invariant(self);
        }
        let (a, b, n) = self.config.params();
        let bins = self.buckets.len();
        self.config
    }

    fn total_count(&self) -> (r: u128) {
        let mut sum: u128 = 0;
        let mut i: usize = 0;
        proof {
            assert(self.buckets@.take(0) =~= Seq::<u64>::empty());
        }
        while i < self.buckets.len()
            invariant
                i <= self.buckets.len(),
                sum == total(self.buckets@.take(i as int)),
            decreases self.buckets.len() - i,
        {
            proof {
                lemma_total_step(self.buckets@, i as int);
                lemma_total_bound(self.buckets@.take(i as int + 1));
                assert((i + 1) * u64::MAX <= usize::MAX * u64::MAX) by (nonlinear_arith)
                    requires
                        i + 1 <= usize::MAX,
                ;
            }
            sum = sum + self.buckets[i] as u128;
            i = i + 1;
        }
        proof {
            lemma_total_take_all(self.buckets@);
        }
        sum
    }

    fn get_count(&self, index: usize) -> (r: u64) {
        self.buckets[index]
    }
}

impl Histogram {
    #[verifier::type_invariant]
    spec fn inv(self) -> bool {
        self.buckets@.len() == self.config@.total_bins()
    }

    /// A histogram with every counter at zero.
    ///
    /// * `a` sets the bucket width in the linear region to `2^a`
    /// * `b` sets the number of buckets per power of two to `2^b`
    /// * `n` sets the largest value to `2^n - 1`, so to `u64::MAX` with 64
    ///
    /// `n` may be 64 at most and must be greater than `a + b`, and the
    /// layout may have `max_bins()` buckets at most.
    pub fn new(a: u8, b: u8, n: u8) -> (r: Result<Histogram, BuildError>)
        ensures
            match r {
                Ok(h) => Config::spec_counters(a, b, n) == Ok::<Layout, BuildError>(h.layout())
                    && h.counts() == zeros(h.layout().total_bins()),
                Err(e) => Config::spec_counters(a, b, n) == Err::<Layout, BuildError>(e),
            },
    {
        match Config::new(a, b, n) {
            Err(e) => Err(e),
            Ok(config) => match config.checked_total_bins() {
                None => Err(BuildError::TooManyBuckets),
                Some(_) => Ok(Histogram::from_config(config)),
            },
        }
    }

    /// A histogram of the given layout, which has `max_bins()` buckets at
    /// most, with every counter at zero.
    pub fn from_config(config: Config) -> (r: Histogram)
        requires
            config@.total_bins() <= max_bins(),
        ensures
            r.layout() == config@,
            r.counts() == zeros(config@.total_bins()),
    {
        let bins = config.total_bins();
        let buckets: Vec<u64> = vec![0u64; bins];
        proof {
            assert(buckets@ =~= zeros(config@.total_bins()));
        }
        Histogram { buckets, config }
    }

    /// A histogram over counters that were allocated elsewhere, one per
    /// bucket of the layout. Handing over another number of counters is a
    /// programming error.
    pub fn from_raw(a: u8, b: u8, n: u8, buckets: Vec<u64>) -> (r: Result<Histogram, BuildError>)
        requires
            Config::spec_new(a, b, n) is Ok ==> buckets@.len() == Config::spec_new(
                a,
                b,
                n,
            )->Ok_0.total_bins(),
        ensures
            match r {
                Ok(h) => Config::spec_new(a, b, n) == Ok::<Layout, BuildError>(h.layout())
                    && h.counts() == buckets@,
                Err(e) => Config::spec_new(a, b, n) == Err::<Layout, BuildError>(e),
            },
    {
        match Config::new(a, b, n) {
            Ok(config) => Ok(Histogram { buckets, config }),
            Err(e) => Err(e),
        }
    }

    /// A histogram of the given layout over the given counters, one per
    /// bucket.
    pub fn from_counts(config: Config, buckets: Vec<u64>) -> (r: Histogram)
        requires
            buckets@.len() == config@.total_bins(),
        ensures
            r.layout() == config@,
            r.counts() == buckets@,
    {
        Histogram { buckets, config }
    }

    /// Overwrites every counter with that of `other`, which has the same
    /// layout.
    pub fn copy_from(&mut self, other: &Histogram)
        requires
            old(self).layout() == other.layout(),
        ensures
            final(self).layout() == old(self).layout(),
            final(self).counts() == other.counts(),
    {
        proof {
            use_type_invariant(&*self);
            use_type_invariant(other);
        }
        let mut i: usize = 0;
        while i < self.buckets.len()
            invariant
                i <= self.buckets.len(),
                self.buckets@.len() == other.buckets@.len(),
                self.config == old(self).config,
                self.buckets@.len() == self.config@.total_bins(),
                forall|j: int| 0 <= j < i ==> self.buckets@[j] == other.buckets@[j],
            decreases self.buckets.len() - i,
        {
            self.buckets[i] = other.buckets[i];
            i = i + 1;
        }
        proof {
            assert(self.buckets@ =~= other.buckets@);
        }
    }

    /// The histogram of what was counted between the reading `earlier` and
    /// this one, which has the same layout: for every bucket, the counter
    /// here less the counter there. Counters wrap round, and so does the
    /// difference.
    pub fn wrapping_sub(&self, earlier: &Histogram) -> (r: Histogram)
        requires
            self.layout() == earlier.layout(),
        ensures
            r.layout() == self.layout(),
            r.counts() == differences(self.counts(), earlier.counts()),
    {
        proof {
            use_type_invariant(self);
            use_type_invariant(earlier);
        }
        let bins = self.buckets.len();
        let mut counts: Vec<u64> = Vec::with_capacity(bins);
        let mut i: usize = 0;
        while i < bins
            invariant
                i <= bins,
                counts.len() == i,
                self.buckets@.len() == bins,
                earlier.buckets@.len() == bins,
                forall|j: int|
                    0 <= j < i ==> counts@[j] == wrapping_difference(
                        self.buckets@[j],
                        earlier.buckets@[j],
                    ),
            decreases bins - i,
        {
            counts.push(self.buckets[i].wrapping_sub(earlier.buckets[i]));
            i = i + 1;
        }
        proof {
            assert(counts@ =~= differences(self.buckets@, earlier.buckets@));
        }
        Histogram { buckets: counts, config: self.config }
    }

    /// A second histogram with the same layout and the same counters.
    pub fn duplicate(&self) -> (r: Histogram)
        ensures
            r.layout() == self.layout(),
            r.counts() == self.counts(),
    {
        proof {
            use_type_invariant(self);
        }
        let bins = self.buckets.len();
        let mut counts: Vec<u64> = Vec::with_capacity(bins);
        let mut i: usize = 0;
        while i < bins
            invariant
                i <= bins,
                bins == self.buckets@.len(),
                counts@ == self.buckets@.take(i as int),
            decreases bins - i,
        {
            counts.push(self.buckets[i]);
            proof {
                assert(self.buckets@.take(i + 1) =~= self.buckets@.take(i as int).push(
                    self.buckets@[i as int],
                ));
            }
            i = i + 1;
        }
        proof {
            assert(self.buckets@.take(bins as int) =~= self.buckets@);
        }
        Histogram { buckets: counts, config: self.config }
    }

    /// Counts one occurrence of `value`.
    pub fn increment(&mut self, value: u64) -> (r: Result<(), Error>)
        ensures
            final(self).layout() == old(self).layout(),
            match old(self).spec_add(value, 1) {
                Ok(counts) => r is Ok && final(self).counts() == counts,
                Err(e) => r == Err::<(), Error>(e) && final(self).counts() == old(self).counts(),
            },
    {
        self.add(value, 1)
    }

    /// What `add` makes of the counters: the counter of the bucket of
    /// `value` grows by `count`, or `OutOfRange` for a value that the layout
    /// cannot represent.
    pub open spec fn spec_add(&self, value: u64, count: u64) -> Result<Seq<u64>, Error> {
        if value >= self.layout().limit() {
            Err(Error::OutOfRange)
        } else {
            let index = self.layout().index_of(value as nat) as int;
            Ok(self.counts().update(index, wrapping_sum(self.counts()[index], count)))
        }
    }

    /// Counts `count` occurrences of `value`.
    pub fn add(&mut self, value: u64, count: u64) -> (r: Result<(), Error>)
        ensures
            final(self).layout() == old(self).layout(),
            match old(self).spec_add(value, count) {
                Ok(counts) => r is Ok && final(self).counts() == counts,
                Err(e) => r == Err::<(), Error>(e) && final(self).counts() == old(self).counts(),
            },
    {
        proof {
            use_type_invariant(&*self);
        }
        let bins = self.buckets.len();
        match self.config.value_to_index(value) {
            Err(e) => Err(e),
            Ok(index) => {
                let updated = self.buckets[index].wrapping_add(count);
                self.buckets[index] = updated;
                Ok(())
            },
        }
    }

    /// The bucket at `index`: its counter and the range of values it
    /// covers.
    pub fn get_bucket(&self, index: usize) -> (r: Bucket)
        requires
            index < self.counts().len(),
        ensures
            r == spec_bucket(self.layout(), self.counts(), index as int),
            r.lower <= r.upper,
    {
        get_bucket(self, index)
    }

    /// The buckets that answer the requested percentiles, in ascending
    /// order of the percentiles, or `Empty` for a histogram that has
    /// counted nothing.
    pub fn percentiles(&self, requested: &[u64]) -> (r: Result<Vec<(u64, Bucket)>, Error>)
        ensures
            total(self.counts()) == 0 <==> r is Err,
            r is Err ==> r == Err::<Vec<(u64, Bucket)>, Error>(Error::Empty),
            r is Ok ==> percentiles_answer(
                self.layout(),
                self.counts(),
                total(self.counts()),
                requested@,
                r->Ok_0@,
            ),
    {
        percentiles(self, requested)
    }

    /// The bucket that answers one percentile, or `Empty` for a histogram
    /// that has counted nothing.
    pub fn percentile(&self, requested: u64) -> (r: Result<Bucket, Error>)
        ensures
            total(self.counts()) == 0 <==> r is Err,
            r is Err ==> r == Err::<Bucket, Error>(Error::Empty),
            r is Ok ==> r->Ok_0 == spec_bucket(
                self.layout(),
                self.counts(),
                answer_index(self.counts(), needed_count(requested, total(self.counts()))),
            ),
            r is Ok ==> r->Ok_0.lower <= r->Ok_0.upper,
    {
        percentile(self, requested)
    }

    /// The counters, one per bucket.
    pub fn as_slice(&self) -> (r: &[u64])
        ensures
            r@ == self.counts(),
            r@.len() == self.layout().total_bins(),
    {
        proof {
            use_type_invariant(self);
        }
        self.buckets.as_slice()
    }
}

} // verus!
