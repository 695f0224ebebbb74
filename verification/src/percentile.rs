//! Percentile queries, written once against the read capability that every
//! kind of histogram offers.
//!
//! A percentile is a whole number of millionths of a percent, so that
//! `50 * PERCENT` is the median and `HUNDRED_PERCENT` is the maximum.

use crate::bucket::Bucket;
use crate::config::Config;
use crate::counts::{cumulative, lemma_total_monotone, lemma_total_step, lemma_total_take_all, total};
use crate::errors::Error;
use crate::layout::Layout;
use vstd::prelude::*;
use vstd::seq_lib::to_multiset_insert;

verus! {

/// One percent, in the unit that percentiles are given in.
pub const PERCENT: u64 = 1_000_000;

/// The largest meaningful percentile.
pub const HUNDRED_PERCENT: u64 = 100_000_000;

/// The number of observations that must be counted before the bucket of
/// the percentile is reached: the percentile's share of `total`, rounded up.
pub open spec fn needed_count(percentile: u64, total: nat) -> nat {
    ((percentile as nat * total + (HUNDRED_PERCENT - 1)) / (HUNDRED_PERCENT as int)) as nat
}

/// The sequence never decreases.
pub open spec fn ascending(s: Seq<u64>) -> bool {
    forall|i: int, j: int| 0 <= i <= j < s.len() ==> s[i] <= s[j]
}

/// `index` is the first bucket at which the running sum of the counters
/// reaches `needed`.
pub open spec fn reaches(counts: Seq<u64>, needed: nat, index: int) -> bool {
    &&& 0 <= index < counts.len()
    &&& cumulative(counts, index) >= needed
    &&& forall|j: int| 0 <= j < index ==> cumulative(counts, j) < needed
}

/// `index` is the last bucket with a counter above zero, or the first
/// bucket where there is none.
pub open spec fn highest_nonzero(counts: Seq<u64>, index: int) -> bool {
    &&& 0 <= index < counts.len()
    &&& forall|j: int| index < j < counts.len() ==> counts[j] == 0
    &&& (index == 0 || counts[index] > 0)
}

/// `index` is the bucket that answers a percentile which needs `needed`
/// observations: the first bucket at which the running sum reaches
/// `needed`, and the highest bucket that holds anything where the counters
/// in all hold less than that.
pub open spec fn answers(counts: Seq<u64>, needed: nat, index: int) -> bool {
    if total(counts) >= needed {
        reaches(counts, needed, index)
    } else {
        highest_nonzero(counts, index)
    }
}

/// The bucket that answers a percentile which needs `needed` observations.
pub open spec fn answer_index(counts: Seq<u64>, needed: nat) -> int {
    choose|index: int| answers(counts, needed, index)
}

/// The bucket at `index` of a histogram with the given layout and counters.
pub open spec fn spec_bucket(layout: Layout, counts: Seq<u64>, index: int) -> Bucket {
    Bucket {
        count: counts[index],
        lower: layout.lower_bound(index as nat) as u64,
        upper: layout.upper_bound(index as nat) as u64,
    }
}

/// At most one bucket answers.
pub proof fn lemma_answer_unique(counts: Seq<u64>, needed: nat, i: int, j: int)
    requires
        answers(counts, needed, i),
        answers(counts, needed, j),
    ensures
        i == j,
        i == answer_index(counts, needed),
{
    let k = answer_index(counts, needed);
    assert(answers(counts, needed, k));
}

/// Where there is a bucket at all, one of them answers.
pub proof fn lemma_answer_exists(counts: Seq<u64>, needed: nat)
    requires
        counts.len() > 0,
    ensures
        answers(counts, needed, answer_index(counts, needed)),
        0 <= answer_index(counts, needed) < counts.len(),
{
    if total(counts) >= needed {
        lemma_total_take_all(counts);
        let i = first_reaching(counts, needed, counts.len() - 1);
        assert(answers(counts, needed, i));
    } else {
        let i = last_nonzero(counts, counts.len() - 1);
        assert(answers(counts, needed, i));
    }
}

/// The first bucket up to `upto` at which the running sum reaches
/// `needed`, where it is reached at `upto`.
proof fn first_reaching(counts: Seq<u64>, needed: nat, upto: int) -> (i: int)
    requires
        0 <= upto < counts.len(),
        cumulative(counts, upto) >= needed,
    ensures
        0 <= i <= upto,
        reaches(counts, needed, i),
    decreases upto,
{
    if upto > 0 && cumulative(counts, upto - 1) >= needed {
        first_reaching(counts, needed, upto - 1)
    } else {
        assert forall|j: int| 0 <= j < upto implies cumulative(counts, j) < needed by {
            lemma_total_monotone(counts, j + 1, upto);
        }
        upto
    }
}

/// The last bucket up to `upto` that holds anything, where none after
/// `upto` does.
proof fn last_nonzero(counts: Seq<u64>, upto: int) -> (i: int)
    requires
        0 <= upto < counts.len(),
        forall|j: int| upto < j < counts.len() ==> counts[j] == 0,
    ensures
        highest_nonzero(counts, i),
    decreases upto,
{
    if upto == 0 || counts[upto] > 0 {
        upto
    } else {
        last_nonzero(counts, upto - 1)
    }
}

/// A larger percentile never needs fewer observations.
pub proof fn lemma_needed_monotone(p: u64, q: u64, total: nat)
    requires
        p <= q,
    ensures
        needed_count(p, total) <= needed_count(q, total),
{
    assert(p as nat * total <= q as nat * total) by (nonlinear_arith)
        requires
            p <= q,
    ;
}

/// The share of `total` that a percentile needs, capped at the largest
/// `u128`.
fn needed(percentile: u64, total: u128) -> (r: u128)
    ensures
        r == if needed_count(percentile, total as nat) > u128::MAX {
            u128::MAX as nat
        } else {
            needed_count(percentile, total as nat)
        },
{
    let scale: u128 = HUNDRED_PERCENT as u128;
    let whole: u128 = total / scale;
    let rest: u128 = total % scale;
    let p: u128 = percentile as u128;
    assert(p * rest <= 0xffff_ffff_ffff_ffff * 100_000_000) by (nonlinear_arith)
        requires
            p <= 0xffff_ffff_ffff_ffff,
            rest <= 100_000_000,
    ;
    let partial: u128 = (p * rest + (scale - 1)) / scale;
    proof {
        assert(p * total == (p * whole) * 100_000_000 + p * rest) by (nonlinear_arith)
            requires
                total == whole * 100_000_000 + rest,
        ;
        assert(p * whole >= 0) by (nonlinear_arith)
            requires
                p >= 0,
                whole >= 0,
        ;
        assert(needed_count(percentile, total as nat) == p * whole + partial);
    }
    match p.checked_mul(whole) {
        None => u128::MAX,
        Some(m) => match m.checked_add(partial) {
            None => u128::MAX,
            Some(s) => s,
        },
    }
}

/// The values of `values` in ascending order.
fn sorted_copy(values: &[u64]) -> (r: Vec<u64>)
    ensures
        ascending(r@),
        r@.to_multiset() == values@.to_multiset(),
{
    let mut out: Vec<u64> = Vec::new();
    let mut i: usize = 0;
    proof {
        assert(values@.take(0) =~= Seq::<u64>::empty());
    }
    while i < values.len()
        invariant
            i <= values.len(),
            ascending(out@),
            out@.to_multiset() == values@.take(i as int).to_multiset(),
        decreases values.len() - i,
    {
        let x = values[i];
        let mut pos: usize = 0;
        while pos < out.len() && out[pos] <= x
            invariant
                pos <= out.len(),
                forall|j: int| 0 <= j < pos ==> out@[j] <= x,
            decreases out.len() - pos,
        {
            pos += 1;
        }
        proof {
            let before = out@;
            let after = before.insert(pos as int, x);
            to_multiset_insert(before, pos as int, x);
            assert(values@.take(i + 1) =~= values@.take(i as int).push(x));
            vstd::seq_lib::to_multiset_build(values@.take(i as int), x);
            assert forall|m: int, n: int| 0 <= m <= n < after.len() implies after[m] <= after[n] by {
                if n < pos {
                } else if n == pos {
                } else if m < pos {
                    assert(after[n] == before[n - 1]);
                    assert(before[pos as int] <= before[n - 1]);
                } else if m == pos {
                    assert(after[n] == before[n - 1]);
                    assert(before[pos as int] <= before[n - 1]);
                } else {
                    assert(after[m] == before[m - 1]);
                    assert(after[n] == before[n - 1]);
                }
            }
        }
        out.insert(pos, x);
        i += 1;
    }
    proof {
        assert(values@.take(values.len() as int) =~= values@);
    }
    out
}

/// What every kind of histogram can be asked: its layout, the sum of its
/// counters and the counter of one bucket.
pub trait Histograms {
    /// The layout of the buckets.
    spec fn layout(&self) -> Layout;

    /// The counters, one per bucket.
    spec fn counts(&self) -> Seq<u64>;

    /// The layout of the buckets. There is one counter per bucket, and a
    /// `usize` can count them.
    fn config(&self) -> (r: Config)
        ensures
            r@ == self.layout(),
            self.layout().valid(),
            self.counts().len() == self.layout().total_bins(),
            self.layout().total_bins() <= usize::MAX,
    ;

    /// The sum of all counters.
    fn total_count(&self) -> (r: u128)
        ensures
            r == total(self.counts()),
    ;

    /// The counter of the bucket at `index`.
    fn get_count(&self, index: usize) -> (r: u64)
        requires
            index < self.counts().len(),
        ensures
            r == self.counts()[index as int],
    ;
}

/// The bucket at `index`: its counter and the range of values it covers.
pub fn get_bucket<H: Histograms>(histogram: &H, index: usize) -> (r: Bucket)
    requires
        index < histogram.counts().len(),
    ensures
        r == spec_bucket(histogram.layout(), histogram.counts(), index as int),
        r.lower <= r.upper,
{
    let config = histogram.config();
    let count = histogram.get_count(index);
    let lower = config.index_to_lower_bound(index);
    let upper = config.index_to_upper_bound(index);
    proof {
        histogram.layout().lemma_bounds_ordered(index as nat);
    }
    Bucket { count, lower, upper }
}

/// The percentiles of an answer, without their buckets.
pub open spec fn answered(answer: Seq<(u64, Bucket)>) -> Seq<u64> {
    Seq::new(answer.len(), |k: int| answer[k].0)
}

/// What `percentiles_with_total` answers: each requested percentile, in
/// ascending order, with the bucket that answers it.
pub open spec fn percentiles_answer(
    layout: Layout,
    counts: Seq<u64>,
    total: nat,
    requested: Seq<u64>,
    answer: Seq<(u64, Bucket)>,
) -> bool {
    &&& answer.len() == requested.len()
    &&& ascending(answered(answer))
    &&& answered(answer).to_multiset() == requested.to_multiset()
    &&& forall|k: int|
        0 <= k < answer.len() ==> (#[trigger] answer[k]).1 == spec_bucket(
            layout,
            counts,
            answer_index(counts, needed_count(answer[k].0, total)),
        )
}

/// The buckets that answer the requested percentiles of a histogram whose
/// counters were seen to sum to `total`.
///
/// The requested percentiles are answered in ascending order, in one walk
/// over the buckets. A percentile is answered by the first bucket at which
/// the running sum of the counters reaches its share of `total`. Where
/// `total` is more than the counters hold, as it may be when it was read
/// while others were still counting, the remaining percentiles are answered
/// by the highest bucket that holds anything.
pub fn percentiles_with_total<H: Histograms>(
    histogram: &H,
    sum: u128,
    requested: &[u64],
) -> (r: Result<Vec<(u64, Bucket)>, Error>)
    ensures
        sum == 0 <==> r is Err,
        r is Err ==> r == Err::<Vec<(u64, Bucket)>, Error>(Error::Empty),
        r is Ok ==> percentiles_answer(
            histogram.layout(),
            histogram.counts(),
            sum as nat,
            requested@,
            r->Ok_0@,
        ),
{
    if sum == 0 {
        return Err(Error::Empty);
    }
    let config = histogram.config();
    let bins = config.total_bins();
    let sorted = sorted_copy(requested);
    proof {
        sorted@.to_multiset_ensures();
        requested@.to_multiset_ensures();
    }
    let ghost counts = histogram.counts();
    let ghost layout = histogram.layout();

    let mut out: Vec<(u64, Bucket)> = Vec::new();
    let mut have: u128 = 0;
    let mut scanned: usize = 0;
    let mut max_idx: usize = 0;
    let mut k: usize = 0;
    let ghost mut floor: nat = 0;
    proof {
        assert(counts.take(0) =~= Seq::<u64>::empty());
    }
    while k < sorted.len()
        invariant
            counts == histogram.counts(),
            layout == histogram.layout(),
            bins == counts.len(),
            bins > 0,
            ascending(sorted@),
            sorted@.to_multiset() == requested@.to_multiset(),
            sorted.len() == requested.len(),
            k <= sorted.len(),
            out.len() == k,
            scanned <= bins,
            have == total(counts.take(scanned as int)),
            max_idx < bins,
            max_idx == 0 || (max_idx < scanned && counts[max_idx as int] > 0),
            forall|j: int| max_idx < j < scanned ==> counts[j] == 0,
            forall|j: int| 0 <= j < scanned - 1 ==> cumulative(counts, j) < floor,
            k < sorted.len() ==> floor <= needed_count(sorted@[k as int], sum as nat),
            forall|i: int|
                0 <= i < k ==> (#[trigger] out@[i]).0 == sorted@[i] && out@[i].1 == spec_bucket(
                    layout,
                    counts,
                    answer_index(counts, needed_count(sorted@[i], sum as nat)),
                ),
        decreases sorted.len() - k,
    {
        let percentile = sorted[k];
        let target = needed(percentile, sum);
        let ghost nd = needed_count(percentile, sum as nat);
        while scanned < bins && (scanned == 0 || have < target)
            invariant
                counts == histogram.counts(),
                bins == counts.len(),
                scanned <= bins,
                have == total(counts.take(scanned as int)),
                max_idx < bins,
                max_idx == 0 || (max_idx < scanned && counts[max_idx as int] > 0),
                forall|j: int| max_idx < j < scanned ==> counts[j] == 0,
                forall|j: int| 0 <= j < scanned - 1 ==> cumulative(counts, j) < nd,
                target == if nd > u128::MAX {
                    u128::MAX as nat
                } else {
                    nd
                },
            decreases bins - scanned,
        {
            let count = histogram.get_count(scanned);
            proof {
                lemma_total_step(counts, scanned as int);
                crate::counts::lemma_total_bound(counts.take(scanned as int + 1));
                assert((scanned + 1) * u64::MAX <= usize::MAX * u64::MAX) by (nonlinear_arith)
                    requires
                        scanned + 1 <= usize::MAX,
                ;
            }
            if count > 0 {
                max_idx = scanned;
            }
            have = have + count as u128;
            scanned = scanned + 1;
        }
        proof {
            crate::counts::lemma_total_bound(counts.take(scanned as int));
            assert(scanned * u64::MAX <= usize::MAX * u64::MAX) by (nonlinear_arith)
                requires
                    scanned <= usize::MAX,
            ;
            lemma_total_monotone(counts, scanned as int, counts.len() as int);
            lemma_total_take_all(counts);
        }
        let index = if scanned > 0 && have >= target {
            scanned - 1
        } else {
            max_idx
        };
        proof {
            assert(answers(counts, nd, index as int));
            lemma_answer_unique(counts, nd, index as int, index as int);
            if k + 1 < sorted.len() {
                lemma_needed_monotone(percentile, sorted@[k + 1], sum as nat);
            }
            floor = nd;
        }
        let bucket = get_bucket(histogram, index);
        out.push((percentile, bucket));
        k = k + 1;
    }
    proof {
        assert(answered(out@) =~= sorted@);
    }
    Ok(out)
}

/// The buckets that answer the requested percentiles, in ascending order
/// of the percentiles, or `Empty` for a histogram that has counted nothing.
pub fn percentiles<H: Histograms>(histogram: &H, requested: &[u64]) -> (r: Result<
    Vec<(u64, Bucket)>,
    Error,
>)
    ensures
        total(histogram.counts()) == 0 <==> r is Err,
        r is Err ==> r == Err::<Vec<(u64, Bucket)>, Error>(Error::Empty),
        r is Ok ==> percentiles_answer(
            histogram.layout(),
            histogram.counts(),
            total(histogram.counts()),
            requested@,
            r->Ok_0@,
        ),
{
    let sum = histogram.total_count();
    percentiles_with_total(histogram, sum, requested)
}

/// The bucket that answers one percentile of a histogram whose counters
/// were seen to sum to `sum`, or `Empty` where that is zero.
pub fn percentile_with_total<H: Histograms>(histogram: &H, sum: u128, requested: u64) -> (r:
    Result<Bucket, Error>)
    ensures
        sum == 0 <==> r is Err,
        r is Err ==> r == Err::<Bucket, Error>(Error::Empty),
        r is Ok ==> r->Ok_0 == spec_bucket(
            histogram.layout(),
            histogram.counts(),
            answer_index(histogram.counts(), needed_count(requested, sum as nat)),
        ),
        r is Ok ==> r->Ok_0.lower <= r->Ok_0.upper,
{
    let bins = histogram.config().total_bins();
    let mut list: Vec<u64> = Vec::new();
    list.push(requested);
    match percentiles_with_total(histogram, sum, list.as_slice()) {
        Err(e) => Err(e),
        Ok(answer) => {
            proof {
                let firsts = answered(answer@);
                assert(list@ =~= Seq::<u64>::empty().push(requested));
                list@.to_multiset_ensures();
                firsts.to_multiset_ensures();
                assert(firsts.contains(firsts[0]));
                assert(firsts.to_multiset().count(firsts[0]) > 0);
                assert(list@.to_multiset().count(firsts[0]) > 0);
                assert(list@.contains(firsts[0]));
                assert(answer@[0].0 == firsts[0]);
                let counts = histogram.counts();
                let needed = needed_count(requested, sum as nat);
                lemma_answer_exists(counts, needed);
                lemma_bucket_ordered(histogram.layout(), counts, answer_index(counts, needed));
            }
            Ok(answer[0].1)
        },
    }
}

/// The bounds of a bucket are in order.
proof fn lemma_bucket_ordered(layout: Layout, counts: Seq<u64>, index: int)
    requires
        layout.valid(),
        0 <= index < layout.total_bins(),
    ensures
        spec_bucket(layout, counts, index).lower <= spec_bucket(layout, counts, index).upper,
{
    layout.lemma_bounds_ordered(index as nat);
    vstd::arithmetic::power2::lemma2_to64();
    vstd::arithmetic::power2::lemma2_to64_rest();
    if layout.n < 64 {
        vstd::arithmetic::power2::lemma_pow2_strictly_increases(layout.n, 64);
    }
}

/// The bucket that answers one percentile, or `Empty` for a histogram that
/// has counted nothing.
pub fn percentile<H: Histograms>(histogram: &H, requested: u64) -> (r: Result<Bucket, Error>)
    ensures
        total(histogram.counts()) == 0 <==> r is Err,
        r is Err ==> r == Err::<Bucket, Error>(Error::Empty),
        r is Ok ==> r->Ok_0 == spec_bucket(
            histogram.layout(),
            histogram.counts(),
            answer_index(
                histogram.counts(),
                needed_count(requested, total(histogram.counts())),
            ),
        ),
        r is Ok ==> r->Ok_0.lower <= r->Ok_0.upper,
{
    let sum = histogram.total_count();
    percentile_with_total(histogram, sum, requested)
}

} // verus!
