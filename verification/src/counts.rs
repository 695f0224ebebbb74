//! Sequences of bucket counters as mathematical values: their sum and the
//! facts about it that the stores and the percentile walk rely on.

use vstd::prelude::*;

verus! {

/// The sum of all counters.
pub open spec fn total(counts: Seq<u64>) -> nat
    decreases counts.len(),
{
    if counts.len() == 0 {
        0
    } else {
        total(counts.drop_last()) + counts.last() as nat
    }
}

/// The sum of the counters up to and including the one at `index`.
pub open spec fn cumulative(counts: Seq<u64>, index: int) -> nat {
    total(counts.take(index + 1))
}

/// A counter that held `x`, after `y` more were counted: counters wrap
/// round at `2^64`.
pub open spec fn wrapping_sum(x: u64, y: u64) -> u64 {
    ((x + y) % 0x1_0000_0000_0000_0000) as u64
}

/// What was counted between a reading `earlier` and a reading `later` of
/// one counter, as long as it wrapped round at most once in between.
pub open spec fn wrapping_difference(later: u64, earlier: u64) -> u64 {
    ((later - earlier) % 0x1_0000_0000_0000_0000) as u64
}

/// What was counted between two readings of the same counters: the
/// difference of each pair.
pub open spec fn differences(later: Seq<u64>, earlier: Seq<u64>) -> Seq<u64> {
    Seq::new(later.len(), |i: int| wrapping_difference(later[i], earlier[i]))
}

/// The counters of a histogram of `len` buckets that has counted nothing.
pub open spec fn zeros(len: nat) -> Seq<u64> {
    Seq::new(len, |i: int| 0u64)
}

/// Every counter is zero.
pub open spec fn all_zero(counts: Seq<u64>) -> bool {
    forall|i: int| 0 <= i < counts.len() ==> counts[i] == 0
}

/// Taking one more counter adds it to the sum.
pub proof fn lemma_total_step(counts: Seq<u64>, index: int)
    requires
        0 <= index < counts.len(),
    ensures
        total(counts.take(index + 1)) == total(counts.take(index)) + counts[index],
{
    assert(counts.take(index + 1).drop_last() =~= counts.take(index));
}

/// The sum of a prefix grows with the prefix.
pub proof fn lemma_total_monotone(counts: Seq<u64>, i: int, j: int)
    requires
        0 <= i <= j <= counts.len(),
    ensures
        total(counts.take(i)) <= total(counts.take(j)),
    decreases j - i,
{
    if i < j {
        lemma_total_monotone(counts, i, j - 1);
        lemma_total_step(counts, j - 1);
    }
}

/// The sum of `len` counters of 64 bits fits 128 bits with room to spare.
pub proof fn lemma_total_bound(counts: Seq<u64>)
    ensures
        total(counts) <= counts.len() * u64::MAX,
    decreases counts.len(),
{
    if counts.len() > 0 {
        lemma_total_bound(counts.drop_last());
        assert((counts.len() - 1) * u64::MAX + u64::MAX == counts.len() * u64::MAX)
            by (nonlinear_arith);
    } else {
        assert(0 * u64::MAX == 0) by (nonlinear_arith);
    }
}

/// The sum is zero exactly when every counter is.
pub proof fn lemma_total_zero(counts: Seq<u64>)
    ensures
        total(counts) == 0 <==> all_zero(counts),
    decreases counts.len(),
{
    if counts.len() > 0 {
        let front = counts.drop_last();
        lemma_total_zero(front);
        if all_zero(counts) {
            assert forall|i: int| 0 <= i < front.len() implies front[i] == 0 by {
                assert(front[i] == counts[i]);
            }
        }
        if total(counts) == 0 {
            assert forall|i: int| 0 <= i < counts.len() implies counts[i] == 0 by {
                if i < front.len() {
                    assert(front[i] == counts[i]);
                }
            }
        }
    }
}

/// The sum of the whole sequence is that of its full prefix.
pub proof fn lemma_total_take_all(counts: Seq<u64>)
    ensures
        total(counts.take(counts.len() as int)) == total(counts),
{
    assert(counts.take(counts.len() as int) =~= counts);
}

/// The counters after the `events` were recorded in order, each the index
/// of a bucket and the number of occurrences counted in it.
pub open spec fn recorded(counts: Seq<u64>, events: Seq<(int, u64)>) -> Seq<u64>
    decreases events.len(),
{
    if events.len() == 0 {
        counts
    } else {
        let before = recorded(counts, events.drop_last());
        let (bucket, count) = events.last();
        before.update(bucket, wrapping_sum(before[bucket], count))
    }
}

/// The number of occurrences that the `events` count in `bucket`.
pub open spec fn tally(events: Seq<(int, u64)>, bucket: int) -> nat
    decreases events.len(),
{
    if events.len() == 0 {
        0
    } else {
        tally(events.drop_last(), bucket) + if events.last().0 == bucket {
            events.last().1 as nat
        } else {
            0
        }
    }
}

/// The difference of two readings of a counter is what was recorded
/// between them, modulo `2^64`: counters only grow, and a counter that
/// wraps round wraps the difference back.
pub proof fn lemma_difference_is_tally(counts: Seq<u64>, events: Seq<(int, u64)>, bucket: int)
    requires
        forall|k: int| 0 <= k < events.len() ==> 0 <= (#[trigger] events[k]).0 < counts.len(),
        0 <= bucket < counts.len(),
    ensures
        recorded(counts, events).len() == counts.len(),
        recorded(counts, events)[bucket] == (counts[bucket] + tally(events, bucket))
            % 0x1_0000_0000_0000_0000,
        wrapping_difference(recorded(counts, events)[bucket], counts[bucket]) == tally(
            events,
            bucket,
        ) % 0x1_0000_0000_0000_0000,
    decreases events.len(),
{
    if events.len() > 0 {
        let front = events.drop_last();
        assert forall|k: int| 0 <= k < front.len() implies 0 <= (#[trigger] front[k]).0
            < counts.len() by {
            assert(front[k] == events[k]);
        }
        lemma_difference_is_tally(counts, front, bucket);
        let last = events.last();
        assert(0 <= last.0 < counts.len());
    }
}

} // verus!
