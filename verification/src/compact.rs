//! The sparse form of a histogram: the buckets that hold something, by
//! index, and their counters. It is made from a histogram and then only
//! read.

use crate::bucket::Bucket;
use crate::config::{max_bins, Config};
use crate::counts::{lemma_total_bound, lemma_total_step, lemma_total_take_all, total};
use crate::errors::Error;
use crate::layout::Layout;
use crate::percentile::{
    answer_index, get_bucket, needed_count, percentile, percentiles, percentiles_answer,
    spec_bucket, Histograms,
};
use vstd::prelude::*;

verus! {

/// The indices rise strictly.
pub open spec fn strictly_ascending(index: Seq<usize>) -> bool {
    forall|i: int, j: int| 0 <= i < j < index.len() ==> index[i] < index[j]
}

/// The counter that a sparse form holds for the bucket at `at`: the one
/// that stands beside the index `at`, and zero where that index is absent.
pub open spec fn sparse_at(index: Seq<usize>, count: Seq<u64>, at: int) -> u64 {
    if exists|k: int| 0 <= k < index.len() && index[k] == at {
        count[choose|k: int| 0 <= k < index.len() && index[k] == at]
    } else {
        0
    }
}

/// All counters of a sparse form, one per bucket.
pub open spec fn dense(len: nat, index: Seq<usize>, count: Seq<u64>) -> Seq<u64> {
    Seq::new(len, |at: int| sparse_at(index, count, at))
}

/// Indices and counters are those of a sparse form over `len` buckets:
/// there are as many of the one as of the other, the indices rise strictly
/// and stay below `len`, and no counter is zero.
pub open spec fn sparse_form(len: nat, index: Seq<usize>, count: Seq<u64>) -> bool {
    &&& index.len() == count.len()
    &&& strictly_ascending(index)
    &&& forall|k: int| 0 <= k < index.len() ==> index[k] < len
    &&& forall|k: int| 0 <= k < count.len() ==> count[k] > 0
}

/// The counter beside an index that is present is the one that the sparse
/// form holds for it.
pub proof fn lemma_sparse_at_present(index: Seq<usize>, count: Seq<u64>, k: int)
    requires
        strictly_ascending(index),
        0 <= k < index.len(),
    ensures
        sparse_at(index, count, index[k] as int) == count[k],
{
    let at = index[k] as int;
    let found = choose|j: int| 0 <= j < index.len() && index[j] == at;
    assert(0 <= found < index.len() && index[found] == at);
    if found < k {
    } else if found > k {
    }
}

/// The counters of a sparse form sum to what its dense form sums to.
pub proof fn lemma_dense_total(len: nat, index: Seq<usize>, count: Seq<u64>)
    requires
        sparse_form(len, index, count),
    ensures
        total(dense(len, index, count)) == total(count),
    decreases len,
{
    let all = dense(len, index, count);
    if len == 0 {
        if index.len() > 0 {
            assert(index[0] < len);
        }
    } else if index.len() > 0 && index.last() == len - 1 {
        let front_index = index.drop_last();
        let front_count = count.drop_last();
        assert(sparse_form((len - 1) as nat, front_index, front_count)) by {
            assert forall|k: int| 0 <= k < front_index.len() implies front_index[k] < len - 1 by {
                assert(index[k] < index[index.len() - 1]);
            }
        }
        lemma_dense_total((len - 1) as nat, front_index, front_count);
        lemma_sparse_at_present(index, count, index.len() - 1);
        assert(all.drop_last() =~= dense((len - 1) as nat, front_index, front_count)) by {
            assert forall|at: int| 0 <= at < len - 1 implies sparse_at(index, count, at)
                == sparse_at(front_index, front_count, at) by {
                if exists|k: int| 0 <= k < index.len() && index[k] == at {
                    let k = choose|k: int| 0 <= k < index.len() && index[k] == at;
                    assert(k < index.len() - 1);
                    assert(front_index[k] == at);
                    lemma_sparse_at_present(index, count, k);
                    lemma_sparse_at_present(front_index, front_count, k);
                } else {
                    if exists|k: int| 0 <= k < front_index.len() && front_index[k] == at {
                        let k = choose|k: int| 0 <= k < front_index.len() && front_index[k] == at;
                        assert(index[k] == at);
                    }
                }
            }
        }
    } else {
        assert(sparse_form((len - 1) as nat, index, count)) by {
            assert forall|k: int| 0 <= k < index.len() implies index[k] < len - 1 by {
                if k < index.len() - 1 {
                    assert(index[k] < index[index.len() - 1]);
                }
            }
        }
        lemma_dense_total((len - 1) as nat, index, count);
        assert(all.drop_last() =~= dense((len - 1) as nat, index, count));
        assert(all.last() == 0) by {
            if exists|k: int| 0 <= k < index.len() && index[k] == len - 1 {
                let k = choose|k: int| 0 <= k < index.len() && index[k] == len - 1;
                if k < index.len() - 1 {
                    assert(index[k] < index[index.len() - 1]);
                }
            }
        }
    }
}

/// The sparse form of counters: the indices of those that are not zero, in
/// rising order, and the counters themselves.
pub open spec fn sparse_of(counts: Seq<u64>) -> (Seq<usize>, Seq<u64>)
    decreases counts.len(),
{
    if counts.len() == 0 {
        (Seq::empty(), Seq::empty())
    } else {
        let (index, count) = sparse_of(counts.drop_last());
        if counts.last() != 0 {
            (index.push((counts.len() - 1) as usize), count.push(counts.last()))
        } else {
            (index, count)
        }
    }
}

/// The round trip. The sparse form of counters is a sparse form, and it
/// reads at every bucket as the counters do, at those that hold nothing
/// too.
pub proof fn lemma_sparse_round_trip(counts: Seq<u64>)
    requires
        counts.len() <= usize::MAX,
    ensures
        sparse_form(counts.len(), sparse_of(counts).0, sparse_of(counts).1),
        dense(counts.len(), sparse_of(counts).0, sparse_of(counts).1) == counts,
        forall|at: int|
            0 <= at < counts.len() ==> sparse_at(sparse_of(counts).0, sparse_of(counts).1, at)
                == #[trigger] counts[at],
    decreases counts.len(),
{
    let (index, count) = sparse_of(counts);
    if counts.len() > 0 {
        let front = counts.drop_last();
        let (front_index, front_count) = sparse_of(front);
        let last = (counts.len() - 1) as int;
        lemma_sparse_round_trip(front);
        if counts.last() != 0 {
            assert(strictly_ascending(index)) by {
                assert forall|i: int, j: int| 0 <= i < j < index.len() implies index[i]
                    < index[j] by {
                    if j == index.len() - 1 {
                        assert(front_index[i] < front.len());
                    }
                }
            }
            lemma_sparse_at_present(index, count, index.len() - 1);
        }
        assert forall|at: int| 0 <= at < counts.len() implies sparse_at(index, count, at)
            == #[trigger] counts[at] by {
            if at < last {
                assert(sparse_at(front_index, front_count, at) == front[at]);
                if exists|k: int| 0 <= k < front_index.len() && front_index[k] == at {
                    let k = choose|k: int| 0 <= k < front_index.len() && front_index[k] == at;
                    assert(index[k] == at);
                    lemma_sparse_at_present(front_index, front_count, k);
                    lemma_sparse_at_present(index, count, k);
                } else {
                    if exists|k: int| 0 <= k < index.len() && index[k] == at {
                        let k = choose|k: int| 0 <= k < index.len() && index[k] == at;
                        assert(k < front_index.len());
                        assert(front_index[k] == at);
                    }
                }
            } else if counts.last() == 0 {
                if exists|k: int| 0 <= k < index.len() && index[k] == at {
                    let k = choose|k: int| 0 <= k < index.len() && index[k] == at;
                    assert(front_index[k] < front.len());
                }
            }
        }
        assert(dense(counts.len(), index, count) =~= counts);
    } else {
        assert(dense(counts.len(), index, count) =~= counts);
    }
}

/// A histogram in sparse form.
pub struct Histogram {
    config: Config,
    index: Vec<usize>,
    count: Vec<u64>,
}

impl Histograms for Histogram {
    closed spec fn layout(&self) -> Layout {
        self.config@
    }

    closed spec fn counts(&self) -> Seq<u64> {
        dense(self.config@.total_bins(), self.index@, self.count@)
    }

    fn config(&self) -> (r: Config) {
        proof {
            use_type_invariant(self);
        }
        let (a, b, n) = self.config.params();
        self.config
    }

    fn total_count(&self) -> (r: u128) {
        proof {
            use_type_invariant(self);
            lemma_dense_total(self.config@.total_bins(), self.index@, self.count@);
        }
        let mut sum: u128 = 0;
        let mut i: usize = 0;
        proof {
            assert(self.count@.take(0) =~= Seq::<u64>::empty());
        }
        while i < self.count.len()
            invariant
                i <= self.count.len(),
                sum == total(self.count@.take(i as int)),
            decreases self.count.len() - i,
        {
            proof {
                lemma_total_step(self.count@, i as int);
                lemma_total_bound(self.count@.take(i as int + 1));
                assert((i + 1) * u64::MAX <= usize::MAX * u64::MAX) by (nonlinear_arith)
                    requires
                        i + 1 <= usize::MAX,
                ;
            }
            sum = sum + self.count[i] as u128;
            i = i + 1;
        }
        proof {
            lemma_total_take_all(self.count@);
        }
        sum
    }

    fn get_count(&self, index: usize) -> (r: u64) {
        proof {
            use_type_invariant(self);
        }
        match self.position(index) {
            Some(k) => {
                proof {
                    lemma_sparse_at_present(self.index@, self.count@, k as int);
                }
                self.count[k]
            },
            None => 0,
        }
    }
}

impl Histogram {
    #[verifier::type_invariant]
    spec fn inv(self) -> bool {
        &&& sparse_form(self.config@.total_bins(), self.index@, self.count@)
        &&& self.config@.total_bins() <= usize::MAX
    }

    /// The indices of the buckets that hold something, in rising order.
    pub closed spec fn spec_index(&self) -> Seq<usize> {
        self.index@
    }

    /// The counters of the buckets that hold something, each beside its
    /// index.
    pub closed spec fn spec_count(&self) -> Seq<u64> {
        self.count@
    }

    /// Where the index `at` stands among the indices, found by halving the
    /// range that may hold it.
    fn position(&self, at: usize) -> (r: Option<usize>)
        ensures
            match r {
                Some(k) => k < self.index@.len() && self.index@[k as int] == at,
                None => !exists|k: int| 0 <= k < self.index@.len() && self.index@[k] == at,
            },
    {
        proof {
            use_type_invariant(self);
        }
        let mut low: usize = 0;
        let mut high: usize = self.index.len();
        while low < high
            invariant
                low <= high <= self.index@.len(),
                strictly_ascending(self.index@),
                forall|k: int| 0 <= k < low ==> self.index@[k] < at,
                forall|k: int| high <= k < self.index@.len() ==> self.index@[k] > at,
            decreases high - low,
        {
            let middle = low + (high - low) / 2;
            let found = self.index[middle];
            if found == at {
                return Some(middle);
            } else if found < at {
                low = middle + 1;
            } else {
                high = middle;
            }
        }
        None
    }

    /// The sparse form of `other`: its layout, and every bucket that holds
    /// something with its counter. Every bucket reads as it does in
    /// `other`, those that hold nothing too.
    pub fn from_standard(other: &crate::standard::Histogram) -> (r: Histogram)
        ensures
            r.layout() == other.layout(),
            r.counts() == other.counts(),
            r.spec_index() == sparse_of(other.counts()).0,
            r.spec_count() == sparse_of(other.counts()).1,
    {
        let config = other.config();
        let buckets = other.as_slice();
        let mut index: Vec<usize> = Vec::new();
        let mut count: Vec<u64> = Vec::new();
        let mut i: usize = 0;
        proof {
            assert(buckets@.take(0) =~= Seq::<u64>::empty());
        }
        while i < buckets.len()
            invariant
                i <= buckets.len(),
                index@ == sparse_of(buckets@.take(i as int)).0,
                count@ == sparse_of(buckets@.take(i as int)).1,
            decreases buckets.len() - i,
        {
            proof {
                assert(buckets@.take(i + 1).drop_last() =~= buckets@.take(i as int));
            }
            let c = buckets[i];
            if c != 0 {
                index.push(i);
                count.push(c);
            }
            i = i + 1;
        }
        proof {
            assert(buckets@.take(buckets.len() as int) =~= buckets@);
            lemma_sparse_round_trip(buckets@);
        }
        Histogram { config, index, count }
    }

    /// The sparse form of `other`, with every counter as it stands at the
    /// moment it is read.
    pub fn from_atomic(other: &crate::atomic::Histogram) -> (r: Histogram)
        ensures
            r.layout() == other.layout(),
            exists|counts: Seq<u64>|
                counts.len() == r.layout().total_bins() && r.counts() == counts && r.spec_index()
                    == sparse_of(counts).0 && r.spec_count() == sparse_of(counts).1,
    {
        let seen = other.load();
        Histogram::from_standard(&seen)
    }

    /// What `from_parts` answers: the sparse form is taken as it is where
    /// the parameters are those of a layout of `max_bins()` buckets at
    /// most and indices and counters fit it.
    pub open spec fn spec_from_parts(a: u8, b: u8, n: u8, index: Seq<usize>, count: Seq<u64>) -> bool {
        Config::spec_counters(a, b, n) is Ok && sparse_form(
            Config::spec_counters(a, b, n)->Ok_0.total_bins(),
            index,
            count,
        )
    }

    /// A histogram in sparse form from its parts, as they come from
    /// elsewhere, or `None` where they are not those of a sparse form.
    pub fn from_parts(a: u8, b: u8, n: u8, index: Vec<usize>, count: Vec<u64>) -> (r: Option<
        Histogram,
    >)
        ensures
            Self::spec_from_parts(a, b, n, index@, count@) <==> r is Some,
            r is Some ==> Config::spec_counters(a, b, n) == Ok::<Layout, crate::errors::BuildError>(
                r->Some_0.layout(),
            ) && r->Some_0.spec_index() == index@ && r->Some_0.spec_count() == count@,
    {
        let config = match Config::new(a, b, n) {
            Err(_) => {
                return None;
            },
            Ok(config) => config,
        };
        let bins = match config.checked_total_bins() {
            None => {
                return None;
            },
            Some(bins) => bins,
        };
        if index.len() != count.len() {
            return None;
        }
        let mut i: usize = 0;
        while i < index.len()
            invariant
                i <= index.len(),
                index.len() == count.len(),
                bins == config@.total_bins(),
                Config::spec_counters(a, b, n) == Ok::<Layout, crate::errors::BuildError>(config@),
                sparse_form(bins as nat, index@.take(i as int), count@.take(i as int)),
            decreases index.len() - i,
        {
            if index[i] >= bins || count[i] == 0 || (i > 0 && index[i - 1] >= index[i]) {
                proof {
                    if sparse_form(bins as nat, index@, count@) {
                        assert(index@[i as int] < bins);
                        assert(count@[i as int] > 0);
                        if i > 0 {
                            assert(index@[i - 1] < index@[i as int]);
                        }
                    }
                }
                return None;
            }
            proof {
                let next_index = index@.take(i + 1);
                let next_count = count@.take(i + 1);
                assert forall|x: int, y: int| 0 <= x < y < next_index.len() implies next_index[x]
                    < next_index[y] by {
                    if y < i {
                        assert(index@.take(i as int)[x] < index@.take(i as int)[y]);
                    } else if x < i - 1 {
                        assert(index@.take(i as int)[x] < index@.take(i as int)[i - 1]);
                    }
                }
                assert forall|k: int| 0 <= k < next_index.len() implies next_index[k] < bins by {
                    if k < i {
                        assert(index@.take(i as int)[k] < bins);
                    }
                }
                assert forall|k: int| 0 <= k < next_count.len() implies next_count[k] > 0 by {
                    if k < i {
                        assert(count@.take(i as int)[k] > 0);
                    }
                }
            }
            i = i + 1;
        }
        proof {
            assert(index@.take(index.len() as int) =~= index@);
            assert(count@.take(count.len() as int) =~= count@);
        }
        Some(Histogram { config, index, count })
    }

    /// The parameters `(a, b, n)` of the layout.
    pub fn params(&self) -> (r: (u8, u8, u8))
        ensures
            r.0 == self.layout().a,
            r.1 == self.layout().b,
            r.2 == self.layout().n,
    {
        self.config.params()
    }

    /// The indices of the buckets that hold something, in rising order.
    pub fn index(&self) -> (r: &[usize])
        ensures
            r@ == self.spec_index(),
            sparse_form(self.layout().total_bins(), self.spec_index(), self.spec_count()),
            self.counts() == dense(self.layout().total_bins(), self.spec_index(), self.spec_count()),
    {
        proof {
            use_type_invariant(self);
        }
        self.index.as_slice()
    }

    /// The counters of the buckets that hold something, each at the place
    /// of its index.
    pub fn count(&self) -> (r: &[u64])
        ensures
            r@ == self.spec_count(),
    {
        self.count.as_slice()
    }

    /// The bucket at `index`: its counter and the range of values it
    /// covers.
    pub fn get_bucket(&self, index: usize) -> (r: Bucket)
        requires
            index < self.counts().len(),
        ensures
            r == spec_bucket(self.layout(), self.counts(), index as int),
            r.lower <= r.upper,
    {
        get_bucket(self, index)
    }

    /// The buckets that answer the requested percentiles, in ascending
    /// order of the percentiles, or `Empty` for a histogram that has
    /// counted nothing.
    pub fn percentiles(&self, requested: &[u64]) -> (r: Result<Vec<(u64, Bucket)>, Error>)
        ensures
            total(self.counts()) == 0 <==> r is Err,
            r is Err ==> r == Err::<Vec<(u64, Bucket)>, Error>(Error::Empty),
            r is Ok ==> percentiles_answer(
                self.layout(),
                self.counts(),
                total(self.counts()),
                requested@,
                r->Ok_0@,
            ),
    {
        percentiles(self, requested)
    }

    /// The bucket that answers one percentile, or `Empty` for a histogram
    /// that has counted nothing.
    pub fn percentile(&self, requested: u64) -> (r: Result<Bucket, Error>)
        ensures
            total(self.counts()) == 0 <==> r is Err,
            r is Err ==> r == Err::<Bucket, Error>(Error::Empty),
            r is Ok ==> r->Ok_0 == spec_bucket(
                self.layout(),
                self.counts(),
                answer_index(self.counts(), needed_count(requested, total(self.counts()))),
            ),
            r is Ok ==> r->Ok_0.lower <= r->Ok_0.upper,
    {
        percentile(self, requested)
    }
}

impl From<&crate::standard::Histogram> for Histogram {
    /// The sparse form of `other`. Every bucket reads as it does in
    /// `other`.
    fn from(other: &crate::standard::Histogram) -> (r: Histogram)
        ensures
            r.layout() == other.layout(),
            r.counts() == other.counts(),
    {
        Histogram::from_standard(other)
    }
}

impl vstd::std_specs::convert::FromSpecImpl<&crate::standard::Histogram> for Histogram {
    open spec fn obeys_from_spec() -> bool {
        false
    }

    open spec fn from_spec(other: &crate::standard::Histogram) -> Histogram {
        arbitrary()
    }
}

impl From<&crate::atomic::Histogram> for Histogram {
    /// The sparse form of `other`, with every counter as it stands at the
    /// moment it is read.
    fn from(other: &crate::atomic::Histogram) -> (r: Histogram)
        ensures
            r.layout() == other.layout(),
            exists|counts: Seq<u64>|
                counts.len() == r.layout().total_bins() && r.counts() == counts && r.spec_index()
                    == sparse_of(counts).0 && r.spec_count() == sparse_of(counts).1,
    {
        Histogram::from_atomic(other)
    }
}

impl vstd::std_specs::convert::FromSpecImpl<&crate::atomic::Histogram> for Histogram {
    open spec fn obeys_from_spec() -> bool {
        false
    }

    open spec fn from_spec(other: &crate::atomic::Histogram) -> Histogram {
        arbitrary()
    }
}

} // verus!
