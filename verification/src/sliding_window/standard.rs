//! The sliding window for a single writer.

use crate::bucket::Bucket;
use crate::config::{max_bins, Config};
use crate::counts::{total, zeros};
use crate::errors::{BuildError, Error};
use crate::layout::Layout;
use crate::percentile::{
    answer_index, needed_count, percentiles_answer, spec_bucket, Histograms,
};
use crate::precise::{Duration, Instant, UnixInstant};
use crate::sliding_window::{duration_nanos, Common, CommonView, WindowView};
use vstd::prelude::*;

verus! {

/// A histogram that reports on the values of a moving window of time, for
/// a single writer.
pub struct Histogram {
    common: Common,
    config: Config,
    // when the next tick begins
    tick_at: Instant,
    // the readings of the live histogram, one per place of the ring
    snapshots: Vec<crate::standard::Histogram>,
    // the live histogram, which is never reset
    live: crate::standard::Histogram,
}

impl View for Histogram {
    type V = WindowView;

    closed spec fn view(&self) -> WindowView {
        WindowView {
            common: self.common@,
            layout: self.config@,
            tick_at: self.tick_at@,
            snapshots: Seq::new(self.snapshots@.len(), |i: int| self.snapshots@[i].counts()),
            live: self.live.counts(),
        }
    }
}

impl Histogram {
    /// The window is well formed: every histogram in it has the layout of
    /// the window, and its view is valid.
    pub closed spec fn wf(&self) -> bool {
        &&& self@.valid()
        &&& self.live.layout() == self.config@
        &&& forall|i: int|
            0 <= i < self.snapshots@.len() ==> (#[trigger] self.snapshots@[i]).layout()
                == self.config@
    }

    /// A window of `slices` slices of the length `resolution` each, over
    /// histograms of the layout `(a, b, n)`, with every counter at zero.
    /// The window ends at the moment that the two clocks read as `started`
    /// and `now`.
    ///
    /// * `a` sets the bucket width in the linear region to `2^a`
    /// * `b` sets the number of buckets per power of two to `2^b`
    /// * `n` sets the largest value to `2^n - 1`, so to `u64::MAX` with 64
    /// * `resolution` is the length of a slice, a microsecond at least
    /// * `slices` is the number of slices
    ///
    /// The layout may have `max_bins()` buckets at most, and the clock
    /// must be able to read the moment at which the first tick ends.
    pub fn new(
        a: u8,
        b: u8,
        n: u8,
        resolution: core::time::Duration,
        slices: usize,
        started: UnixInstant,
        now: Instant,
    ) -> (r: Result<Histogram, BuildError>)
        ensures
            match r {
                Ok(h) => {
                    &&& h.wf()
                    &&& h@.valid()
                    &&& Common::spec_window(
                        a,
                        b,
                        n,
                        duration_nanos(resolution),
                        slices,
                        started,
                        now,
                    ) == Ok::<CommonView, BuildError>(h@.common)
                    &&& Config::spec_new(a, b, n) == Ok::<Layout, BuildError>(h@.layout)
                    &&& h@.tick_at == h@.common.tick_origin + h@.common.resolution
                    &&& h@.live == zeros(h@.layout.total_bins())
                    &&& forall|i: int|
                        0 <= i < h@.snapshots.len() ==> h@.snapshots[i] == zeros(
                            h@.layout.total_bins(),
                        )
                },
                Err(e) => Common::spec_window(
                    a,
                    b,
                    n,
                    duration_nanos(resolution),
                    slices,
                    started,
                    now,
                ) == Err::<CommonView, BuildError>(e),
            },
    {
        match Common::new(a, b, n, resolution, slices, started, now) {
            Err(e) => Err(e),
            Ok(common) => match Config::new(a, b, n) {
                Err(e) => Err(e),
                Ok(config) => {
                    if config.checked_total_bins().is_none() {
                        return Err(BuildError::TooManyBuckets);
                    }
                    if common.first_tick().is_none() {
                        return Err(BuildError::ResolutionTooLarge);
                    }
                    Ok(Histogram::from_parts(common, config))
                },
            },
        }
    }

    /// The window of the given parameters and layout, with every counter
    /// at zero. The layout has `max_bins()` buckets at most, and the clock
    /// can read the moment at which the first tick ends.
    pub fn from_parts(common: Common, config: Config) -> (r: Histogram)
        requires
            config@.total_bins() <= max_bins(),
            common@.first_tick_readable(),
        ensures
            r.wf(),
            r@.valid(),
            r@.common == common@,
            r@.layout == config@,
            r@.tick_at == common@.tick_origin + common@.resolution,
            r@.live == zeros(config@.total_bins()),
            forall|i: int|
                0 <= i < r@.snapshots.len() ==> r@.snapshots[i] == zeros(config@.total_bins()),
    {
        let slots = common.num_slices();
        let span = common.span();
        let (a, b, n) = config.params();
        let live = crate::standard::Histogram::from_config(config);
        let mut snapshots: Vec<crate::standard::Histogram> = Vec::new();
        while snapshots.len() < slots
            invariant
                snapshots.len() <= slots,
                config@.total_bins() <= max_bins(),
                forall|i: int|
                    0 <= i < snapshots@.len() ==> (#[trigger] snapshots@[i]).layout() == config@
                        && snapshots@[i].counts() == zeros(config@.total_bins()),
            decreases slots - snapshots.len(),
        {
            snapshots.push(crate::standard::Histogram::from_config(config));
        }
        let tick_at = common.first_tick().unwrap();
        let r = Histogram { common, config, tick_at, snapshots, live };
        proof {
            vstd::arithmetic::div_mod::lemma_mod_self_0(common@.resolution as int);
            assert forall|i: int| 0 <= i < r@.snapshots.len() implies #[trigger] r@.snapshots[i]
                == zeros(config@.total_bins()) by {
                assert(r@.snapshots[i] == r.snapshots@[i].counts());
            }
        }
        r
    }

    /// The parameters of the window.
    pub fn common(&self) -> (r: Common)
        ensures
            r@ == self@.common,
    {
        self.common
    }

    /// The layout of the histograms of the window.
    pub fn config(&self) -> (r: Config)
        ensures
            r@ == self@.layout,
    {
        self.config
    }

    /// The moment at which the next tick begins.
    pub fn tick_at(&self) -> (r: Instant)
        ensures
            r@ == self@.tick_at,
    {
        self.tick_at
    }

    /// The live histogram, which has counted everything since the window
    /// was made.
    pub fn live(&self) -> (r: &crate::standard::Histogram)
        requires
            self.wf(),
        ensures
            r.counts() == self@.live,
            r.layout() == self@.layout,
    {
        &self.live
    }

    /// The places in the ring that hold the readings for `start` and for
    /// `end`.
    pub fn range(&self, start: Instant, end: Instant) -> (r: (usize, usize))
        ensures
            r.0 == self@.common.range(start@ as int, end@ as int).0,
            r.1 == self@.common.range(start@ as int, end@ as int).1,
            r.0 < self@.common.num_slices,
            r.1 < self@.common.num_slices,
    {
        self.common.range(start, end)
    }

    /// Moves the window forward by one tick where `instant` is no earlier
    /// than the moment at which the next tick begins: the live counters are
    /// then copied to one place of the ring. Only one place is overwritten,
    /// however many ticks have passed.
    pub fn advance(&mut self, instant: Instant)
        requires
            old(self).wf(),
            instant@ >= old(self)@.tick_at ==> old(self)@.tick_at + old(self)@.common.resolution
                <= u64::MAX,
        ensures
            final(self).wf(),
            final(self)@.valid(),
            final(self)@ == old(self)@.advanced(instant@),
    {
        if instant.as_nanos() < self.tick_at.as_nanos() {
            return ;
        }
        let (tick_next, slot) = self.common.rotation(self.tick_at);
        let ghost before = self@;
        self.tick_at = tick_next;
        self.snapshots[slot].copy_from(&self.live);
        proof {
            assert(self@.snapshots =~= before.snapshots.update(slot as int, before.live));
            assert(self@ == before.advanced(instant@));
            before.lemma_advanced(instant@);
        }
    }

    /// Counts one occurrence of `value` at the moment `instant`.
    pub fn increment_at(&mut self, instant: Instant, value: u64) -> (r: Result<(), Error>)
        requires
            old(self).wf(),
            instant@ >= old(self)@.tick_at ==> old(self)@.tick_at + old(self)@.common.resolution
                <= u64::MAX,
        ensures
            final(self).wf(),
            final(self)@.valid(),
            final(self)@ == old(self)@.advanced(instant@).counted(value, 1),
            value < old(self)@.layout.limit() <==> r is Ok,
            r is Err ==> r == Err::<(), Error>(Error::OutOfRange),
    {
        self.add_at(instant, value, 1)
    }

    /// Counts `count` occurrences of `value` at the moment `instant`.
    ///
    /// The window is moved forward first, where `instant` calls for it.
    /// The value is then counted in the live histogram, or refused as
    /// `OutOfRange` where the layout cannot represent it.
    pub fn add_at(&mut self, instant: Instant, value: u64, count: u64) -> (r: Result<(), Error>)
        requires
            old(self).wf(),
            instant@ >= old(self)@.tick_at ==> old(self)@.tick_at + old(self)@.common.resolution
                <= u64::MAX,
        ensures
            final(self).wf(),
            final(self)@.valid(),
            final(self)@ == old(self)@.advanced(instant@).counted(value, count),
            value < old(self)@.layout.limit() <==> r is Ok,
            r is Err ==> r == Err::<(), Error>(Error::OutOfRange),
    {
        self.advance(instant);
        let ghost before = self@;
        let r = self.live.add(value, count);
        proof {
            assert(self@.snapshots =~= before.snapshots);
            self.config@.lemma_value_in_bucket_if(value as nat);
        }
        r
    }

    /// What was counted between the readings that the moments `start` and
    /// `end` select. Both are given in nanoseconds and may lie before the
    /// clock's zero.
    fn delta(&self, start: i128, end: i128) -> (r: crate::standard::Histogram)
        requires
            self.wf(),
            -0x4_0000_0000_0000_0000 <= start <= 0x4_0000_0000_0000_0000,
            -0x4_0000_0000_0000_0000 <= end <= 0x4_0000_0000_0000_0000,
        ensures
            r.layout() == self@.layout,
            r.counts() == self@.delta(start as int, end as int),
    {
        let (first, last) = self.common.range_between(start, end);
        proof {
            assert(self@.snapshots[first as int] == self.snapshots@[first as int].counts());
            assert(self@.snapshots[last as int] == self.snapshots@[last as int].counts());
        }
        self.snapshots[last].wrapping_sub(&self.snapshots[first])
    }

    /// What was counted in the time `reach`, in nanoseconds, up to the
    /// beginning of the current tick.
    fn delta_last(&self, reach: u128) -> (r: crate::standard::Histogram)
        requires
            self.wf(),
            reach <= 0x2_0000_0000_0000_0000,
        ensures
            r.layout() == self@.layout,
            r.counts() == self@.last(reach as nat),
    {
        let end: i128 = (self.tick_at.as_nanos() - self.common.resolution().as_nanos()) as i128;
        self.delta(end - reach as i128, end)
    }

    /// What is read as counted over the whole span: the newest reading
    /// that the ring holds less the oldest.
    fn delta_whole(&self) -> (r: crate::standard::Histogram)
        requires
            self.wf(),
        ensures
            r.layout() == self@.layout,
            r.counts() == self@.whole(),
    {
        let end: i128 = self.tick_at.as_nanos() as i128;
        let start: i128 = end - self.common.span().as_nanos() as i128;
        self.delta(start, end)
    }

    /// The histogram of what was counted from `start` to `end`: for every
    /// bucket, the reading that `end` selects less the reading that `start`
    /// selects. Counters wrap round, and so does the difference.
    pub fn distribution_between(&self, start: Instant, end: Instant) -> (r: Result<
        crate::standard::Histogram,
        Error,
    >)
        requires
            self.wf(),
        ensures
            r is Ok,
            r->Ok_0.layout() == self@.layout,
            r->Ok_0.counts() == self@.delta(start@ as int, end@ as int),
    {
        Ok(self.delta(start.as_nanos() as i128, end.as_nanos() as i128))
    }

    /// The histogram of what was counted in the time `duration` up to the
    /// beginning of the current tick. The longest duration that the ring
    /// answers for is the span less one resolution.
    pub fn distribution_last(&self, duration: Duration) -> (r: Result<
        crate::standard::Histogram,
        Error,
    >)
        requires
            self.wf(),
        ensures
            r is Ok,
            r->Ok_0.layout() == self@.layout,
            r->Ok_0.counts() == self@.last(duration@),
    {
        Ok(self.delta_last(duration.as_nanos() as u128))
    }

    /// The buckets that answer the requested percentiles of what was
    /// counted from `start` to `end`, or `Empty` where that is nothing.
    pub fn percentiles_between(&self, start: Instant, end: Instant, requested: &[u64]) -> (r:
        Result<Vec<(u64, Bucket)>, Error>)
        requires
            self.wf(),
        ensures
            total(self@.delta(start@ as int, end@ as int)) == 0 <==> r is Err,
            r is Err ==> r == Err::<Vec<(u64, Bucket)>, Error>(Error::Empty),
            r is Ok ==> percentiles_answer(
                self@.layout,
                self@.delta(start@ as int, end@ as int),
                total(self@.delta(start@ as int, end@ as int)),
                requested@,
                r->Ok_0@,
            ),
    {
        let histogram = self.delta(start.as_nanos() as i128, end.as_nanos() as i128);
        histogram.percentiles(requested)
    }

    /// The buckets that answer the requested percentiles of what was
    /// counted in the time `duration` up to the beginning of the current
    /// tick, or `Empty` where that is nothing. The longest duration that
    /// the ring answers for is the span less one resolution.
    pub fn percentiles_last(&self, duration: Duration, requested: &[u64]) -> (r: Result<
        Vec<(u64, Bucket)>,
        Error,
    >)
        requires
            self.wf(),
        ensures
            total(self@.last(duration@)) == 0 <==> r is Err,
            r is Err ==> r == Err::<Vec<(u64, Bucket)>, Error>(Error::Empty),
            r is Ok ==> percentiles_answer(
                self@.layout,
                self@.last(duration@),
                total(self@.last(duration@)),
                requested@,
                r->Ok_0@,
            ),
    {
        let histogram = self.delta_last(duration.as_nanos() as u128);
        histogram.percentiles(requested)
    }

    /// The buckets that answer the requested percentiles of what was
    /// counted over the whole span, or `Empty` where that is nothing.
    pub fn percentiles(&self, requested: &[u64]) -> (r: Result<Vec<(u64, Bucket)>, Error>)
        requires
            self.wf(),
        ensures
            total(self@.whole()) == 0 <==> r is Err,
            r is Err ==> r == Err::<Vec<(u64, Bucket)>, Error>(Error::Empty),
            r is Ok ==> percentiles_answer(
                self@.layout,
                self@.whole(),
                total(self@.whole()),
                requested@,
                r->Ok_0@,
            ),
    {
        let histogram = self.delta_whole();
        histogram.percentiles(requested)
    }

    /// The bucket that answers one percentile of what was counted over the
    /// whole span, or `Empty` where that is nothing.
    pub fn percentile(&self, requested: u64) -> (r: Result<Bucket, Error>)
        requires
            self.wf(),
        ensures
            total(self@.whole()) == 0 <==> r is Err,
            r is Err ==> r == Err::<Bucket, Error>(Error::Empty),
            r is Ok ==> r->Ok_0 == spec_bucket(
                self@.layout,
                self@.whole(),
                answer_index(self@.whole(), needed_count(requested, total(self@.whole()))),
            ),
    {
        let histogram = self.delta_whole();
        histogram.percentile(requested)
    }
}

} // verus!
