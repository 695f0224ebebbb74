//! The sliding window for many writers.
//!
//! Writers share the window without a lock. The one who moves the moment
//! of the next tick forward copies the live counters to the ring; the
//! others go on counting. Readers may see counters move while they read, so
//! the contracts here say how an answer follows from what was read, and
//! nothing of the numbers themselves.

use crate::bucket::Bucket;
use crate::config::{max_bins, Config};
use crate::errors::{BuildError, Error};
use crate::layout::Layout;
use crate::counts::total;
use crate::percentile::{
    answer_index, needed_count, percentiles_answer, spec_bucket, Histograms,
};
use crate::precise::{AtomicInstant, Duration, Instant, UnixInstant};
use crate::sliding_window::{duration_nanos, Common, CommonView};
use vstd::prelude::*;

verus! {

/// A histogram that reports on the values of a moving window of time, for
/// many writers at once.
pub struct Histogram {
    common: Common,
    config: Config,
    // when the next tick begins
    tick_at: AtomicInstant,
    // the readings of the live histogram, one per place of the ring
    snapshots: Vec<crate::atomic::Histogram>,
    // the live histogram, which is never reset
    live: crate::atomic::Histogram,
}

impl Histogram {
    /// The window is well formed: the ring has a place for every slice and
    /// one more, and every histogram in it has the layout of the window.
    pub closed spec fn wf(&self) -> bool {
        &&& self.common@.valid()
        &&& self.config@.valid()
        &&& self.snapshots@.len() == self.common@.num_slices
        &&& self.live.layout() == self.config@
        &&& forall|i: int|
            0 <= i < self.snapshots@.len() ==> (#[trigger] self.snapshots@[i]).layout()
                == self.config@
    }

    /// The parameters of the window.
    pub closed spec fn spec_common(&self) -> CommonView {
        self.common@
    }

    /// The layout of the histograms of the window.
    pub closed spec fn layout(&self) -> Layout {
        self.config@
    }

    /// A window of `slices` slices of the length `resolution` each, over
    /// histograms of the layout `(a, b, n)`, with every counter at zero.
    /// The window ends at the moment that the two clocks read as `started`
    /// and `now`.
    ///
    /// * `a` sets the bucket width in the linear region to `2^a`
    /// * `b` sets the number of buckets per power of two to `2^b`
    /// * `n` sets the largest value to `2^n - 1`, so to `u64::MAX` with 64
    /// * `resolution` is the length of a slice, a microsecond at least
    /// * `slices` is the number of slices
    ///
    /// The layout may have `max_bins()` buckets at most, and the clock
    /// must be able to read the moment at which the first tick ends.
    pub fn new(
        a: u8,
        b: u8,
        n: u8,
        resolution: core::time::Duration,
        slices: usize,
        started: UnixInstant,
        now: Instant,
    ) -> (r: Result<Histogram, BuildError>)
        ensures
            match r {
                Ok(h) => {
                    &&& h.wf()
                    &&& Common::spec_window(
                        a,
                        b,
                        n,
                        duration_nanos(resolution),
                        slices,
                        started,
                        now,
                    ) == Ok::<CommonView, BuildError>(h.spec_common())
                    &&& Config::spec_new(a, b, n) == Ok::<Layout, BuildError>(h.layout())
                },
                Err(e) => Common::spec_window(
                    a,
                    b,
                    n,
                    duration_nanos(resolution),
                    slices,
                    started,
                    now,
                ) == Err::<CommonView, BuildError>(e),
            },
    {
        match Common::new(a, b, n, resolution, slices, started, now) {
            Err(e) => Err(e),
            Ok(common) => match Config::new(a, b, n) {
                Err(e) => Err(e),
                Ok(config) => {
                    if config.checked_total_bins().is_none() {
                        return Err(BuildError::TooManyBuckets);
                    }
                    if common.first_tick().is_none() {
                        return Err(BuildError::ResolutionTooLarge);
                    }
                    Ok(Histogram::from_parts(common, config))
                },
            },
        }
    }

    /// The window of the given parameters and layout, with every counter
    /// at zero. The layout has `max_bins()` buckets at most, and the clock
    /// can read the moment at which the first tick ends.
    pub fn from_parts(common: Common, config: Config) -> (r: Histogram)
        requires
            config@.total_bins() <= max_bins(),
            common@.first_tick_readable(),
        ensures
            r.wf(),
            r.spec_common() == common@,
            r.layout() == config@,
    {
        let slots = common.num_slices();
        let span = common.span();
        let (a, b, n) = config.params();
        let live = crate::atomic::Histogram::from_config(config);
        let mut snapshots: Vec<crate::atomic::Histogram> = Vec::new();
        while snapshots.len() < slots
            invariant
                snapshots.len() <= slots,
                config@.total_bins() <= max_bins(),
                forall|i: int|
                    0 <= i < snapshots@.len() ==> (#[trigger] snapshots@[i]).layout() == config@,
            decreases slots - snapshots.len(),
        {
            snapshots.push(crate::atomic::Histogram::from_config(config));
        }
        let tick_at = AtomicInstant::new(common.first_tick().unwrap());
        Histogram { common, config, tick_at, snapshots, live }
    }

    /// The parameters of the window.
    pub fn common(&self) -> (r: Common)
        ensures
            r@ == self.spec_common(),
    {
        self.common
    }

    /// The layout of the histograms of the window.
    pub fn config(&self) -> (r: Config)
        ensures
            r@ == self.layout(),
    {
        self.config
    }

    /// The live histogram, which has counted everything since the window
    /// was made.
    pub fn live(&self) -> (r: &crate::atomic::Histogram)
        requires
            self.wf(),
        ensures
            r.layout() == self.layout(),
    {
        &self.live
    }

    /// The moment at which the next tick begins, as it stands at the
    /// moment of the read.
    pub fn tick_at(&self) -> (r: Instant) {
        self.tick_at.load()
    }

    /// The places in the ring that hold the readings for `start` and for
    /// `end`.
    pub fn range(&self, start: Instant, end: Instant) -> (r: (usize, usize))
        ensures
            r.0 == self.spec_common().range(start@ as int, end@ as int).0,
            r.1 == self.spec_common().range(start@ as int, end@ as int).1,
            r.0 < self.spec_common().num_slices,
            r.1 < self.spec_common().num_slices,
    {
        self.common.range(start, end)
    }

    /// Moves the window forward by one tick where `instant` is no earlier
    /// than the moment at which the next tick begins.
    ///
    /// Of those who come at once, one moves the moment of the next tick
    /// forward and then copies the live counters to the place of the ring
    /// that `Common::rotation` names for the moment that was read. The
    /// others try again with the moment that they found moved, and stop as
    /// soon as `instant` is earlier than it. The moment only ever moves
    /// forward: a caller that finds it otherwise stops too. Only one place
    /// is overwritten by one caller, however many ticks have passed.
    pub fn snapshot(&self, instant: Instant)
        requires
            self.wf(),
            instant@ + self.spec_common().resolution <= u64::MAX,
    {
        let mut tick_at = self.tick_at.load();
        loop
            invariant
                self.wf(),
                instant@ + self.spec_common().resolution <= u64::MAX,
            decreases u64::MAX - tick_at@,
        {
            if instant.as_nanos() < tick_at.as_nanos() {
                return ;
            }
            let (tick_next, slot) = self.common.rotation(tick_at);
            match self.tick_at.compare_exchange(tick_at, tick_next) {
                Ok(_) => {
                    self.snapshots[slot].copy_from(&self.live);
                    return ;
                },
                Err(found) => {
                    if found.as_nanos() <= tick_at.as_nanos() {
                        return ;
                    }
                    tick_at = found;
                },
            }
        }
    }

    /// Counts one occurrence of `value` at the moment `instant`: `Ok` for
    /// a value that the layout can represent, `OutOfRange` for any other,
    /// which is then not counted.
    pub fn increment_at(&self, instant: Instant, value: u64) -> (r: Result<(), Error>)
        requires
            self.wf(),
            instant@ + self.spec_common().resolution <= u64::MAX,
        ensures
            value < self.layout().limit() <==> r is Ok,
            r is Err ==> r == Err::<(), Error>(Error::OutOfRange),
    {
        self.add_at(instant, value, 1)
    }

    /// Counts `count` occurrences of `value` at the moment `instant`:
    /// `Ok` for a value that the layout can represent, `OutOfRange` for any
    /// other, which is then not counted. The window is moved forward first,
    /// where `instant` calls for it.
    pub fn add_at(&self, instant: Instant, value: u64, count: u64) -> (r: Result<(), Error>)
        requires
            self.wf(),
            instant@ + self.spec_common().resolution <= u64::MAX,
        ensures
            value < self.layout().limit() <==> r is Ok,
            r is Err ==> r == Err::<(), Error>(Error::OutOfRange),
    {
        self.snapshot(instant);
        self.live.add(value, count)
    }

    /// What was counted between the readings that the moments `start` and
    /// `end` select. Both are given in nanoseconds and may lie before the
    /// clock's zero.
    fn delta(&self, start: i128, end: i128) -> (r: crate::standard::Histogram)
        requires
            self.wf(),
            -0x4_0000_0000_0000_0000 <= start <= 0x4_0000_0000_0000_0000,
            -0x4_0000_0000_0000_0000 <= end <= 0x4_0000_0000_0000_0000,
        ensures
            r.layout() == self.layout(),
            r.counts().len() == self.layout().total_bins(),
    {
        let (first, last) = self.common.range_between(start, end);
        self.snapshots[last].wrapping_sub(&self.snapshots[first])
    }

    /// What was counted in the time `reach`, in nanoseconds, up to the
    /// beginning of the tick that is read as the current one.
    fn delta_last(&self, reach: u128) -> (r: crate::standard::Histogram)
        requires
            self.wf(),
            reach <= 0x2_0000_0000_0000_0000,
        ensures
            r.layout() == self.layout(),
            r.counts().len() == self.layout().total_bins(),
    {
        let tick_at = self.tick_at.load();
        let resolution = self.common.resolution();
        let end: i128 = tick_at.as_nanos() as i128 - resolution.as_nanos() as i128;
        self.delta(end - reach as i128, end)
    }

    /// What is read as counted over the whole span: the newest reading
    /// that the ring holds less the oldest, for the tick that is read as
    /// the one that begins next.
    fn delta_whole(&self) -> (r: crate::standard::Histogram)
        requires
            self.wf(),
        ensures
            r.layout() == self.layout(),
            r.counts().len() == self.layout().total_bins(),
    {
        let end: i128 = self.tick_at.load().as_nanos() as i128;
        let start: i128 = end - self.common.span().as_nanos() as i128;
        self.delta(start, end)
    }

    /// The histogram of what was counted from `start` to `end`: for every
    /// bucket, the reading that `end` selects less the reading that `start`
    /// selects, each as it stands at the moment it is read.
    pub fn distribution_between(&self, start: Instant, end: Instant) -> (r: Result<
        crate::standard::Histogram,
        Error,
    >)
        requires
            self.wf(),
        ensures
            r is Ok,
            r->Ok_0.layout() == self.layout(),
            r->Ok_0.counts().len() == self.layout().total_bins(),
    {
        Ok(self.delta(start.as_nanos() as i128, end.as_nanos() as i128))
    }

    /// The histogram of what was counted in the time `duration` up to the
    /// beginning of the tick that is read as the current one. The longest
    /// duration that the ring answers for is the span less one resolution.
    pub fn distribution_last(&self, duration: Duration) -> (r: Result<
        crate::standard::Histogram,
        Error,
    >)
        requires
            self.wf(),
        ensures
            r is Ok,
            r->Ok_0.layout() == self.layout(),
            r->Ok_0.counts().len() == self.layout().total_bins(),
    {
        Ok(self.delta_last(duration.as_nanos() as u128))
    }

    /// What the percentile queries of this window promise: `Empty` or the
    /// answer to the requested percentiles for some counters, one per
    /// bucket, that hold something.
    pub open spec fn answers(
        &self,
        requested: Seq<u64>,
        r: Result<Vec<(u64, Bucket)>, Error>,
    ) -> bool {
        match r {
            Err(e) => e == Error::Empty,
            Ok(answer) => exists|counts: Seq<u64>|
                counts.len() == self.layout().total_bins() && total(counts) > 0
                    && percentiles_answer(
                    self.layout(),
                    counts,
                    total(counts),
                    requested,
                    answer@,
                ),
        }
    }

    /// The buckets that answer the requested percentiles of what was
    /// counted from `start` to `end`, or `Empty` where that was read as
    /// nothing.
    pub fn percentiles_between(&self, start: Instant, end: Instant, requested: &[u64]) -> (r:
        Result<Vec<(u64, Bucket)>, Error>)
        requires
            self.wf(),
        ensures
            self.answers(requested@, r),
    {
        let histogram = self.delta(start.as_nanos() as i128, end.as_nanos() as i128);
        histogram.percentiles(requested)
    }

    /// The buckets that answer the requested percentiles of what was
    /// counted in the time `duration` up to the beginning of the tick that
    /// is read as the current one, or `Empty` where that was read as
    /// nothing.
    pub fn percentiles_last(&self, duration: Duration, requested: &[u64]) -> (r: Result<
        Vec<(u64, Bucket)>,
        Error,
    >)
        requires
            self.wf(),
        ensures
            self.answers(requested@, r),
    {
        let histogram = self.delta_last(duration.as_nanos() as u128);
        histogram.percentiles(requested)
    }

    /// The buckets that answer the requested percentiles of what was
    /// counted over the whole span, or `Empty` where that was read as
    /// nothing.
    pub fn percentiles(&self, requested: &[u64]) -> (r: Result<Vec<(u64, Bucket)>, Error>)
        requires
            self.wf(),
        ensures
            self.answers(requested@, r),
    {
        let histogram = self.delta_whole();
        histogram.percentiles(requested)
    }

    /// The bucket that answers one percentile of what was counted over the
    /// whole span, or `Empty` where that was read as nothing.
    pub fn percentile(&self, requested: u64) -> (r: Result<Bucket, Error>)
        requires
            self.wf(),
        ensures
            r is Err ==> r == Err::<Bucket, Error>(Error::Empty),
            r is Ok ==> exists|counts: Seq<u64>|
                counts.len() == self.layout().total_bins() && total(counts) > 0 && r->Ok_0
                    == spec_bucket(
                    self.layout(),
                    counts,
                    answer_index(counts, needed_count(requested, total(counts))),
                ),
            r is Ok ==> r->Ok_0.lower <= r->Ok_0.upper,
    {
        let histogram = self.delta_whole();
        let r = histogram.percentile(requested);
        proof {
            if r is Ok {
                let counts = histogram.counts();
                assert(r->Ok_0 == spec_bucket(
                    self.layout(),
                    counts,
                    answer_index(counts, needed_count(requested, total(counts))),
                ));
            }
        }
        r
    }
}

} // verus!
