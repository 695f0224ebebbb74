//! Histograms over a sliding window of time.
//!
//! A window keeps a live histogram that is never reset and a ring of
//! copies of it, one taken at each tick. What was counted between two
//! moments is the difference of the two copies that the moments select.
//! A copy is taken when a tick has ended, so that what is read for a moment
//! is what was counted up to one tick before it: `history` states this.

use crate::config::{max_bins, Config};
use crate::counts::{
    differences, lemma_difference_is_tally, recorded, tally, wrapping_sum, zeros,
};
use crate::errors::BuildError;
use crate::layout::Layout;
use crate::precise::{Duration, Instant, UnixInstant};
use vstd::arithmetic::div_mod::{
    lemma_add_mod_noop, lemma_fundamental_div_mod, lemma_mod_bound, lemma_mod_self_0,
    lemma_small_mod,
};
use vstd::prelude::*;

pub mod atomic;
pub mod history;
pub mod standard;

verus! {

/// The number of nanoseconds in `duration`.
pub uninterp spec fn duration_nanos(duration: core::time::Duration) -> u128;

/// `core::time::Duration::as_nanos` returns the number of nanoseconds in
/// the duration, which depends on the duration alone.
pub assume_specification[ core::time::Duration::as_nanos ](
    duration: &core::time::Duration,
) -> (r: u128)
    ensures
        r == duration_nanos(*duration),
;

/// The shortest resolution of a window, in nanoseconds: one microsecond.
pub const MIN_RESOLUTION: u64 = 1_000;

/// The parameters of a window as mathematical values, times in nanoseconds.
pub struct CommonView {
    /// The length of a tick.
    pub resolution: nat,
    /// The length of the window: that of all its slices.
    pub span: nat,
    /// The moment on the wall clock at which the window starts.
    pub started: nat,
    /// The moment on the monotonic clock from which ticks are counted.
    pub tick_origin: nat,
    /// The length of the ring: one more than the number of slices.
    pub num_slices: nat,
}

impl CommonView {
    /// The parameters are those of a window.
    pub open spec fn valid(self) -> bool {
        &&& self.resolution >= MIN_RESOLUTION
        &&& self.num_slices >= 1
        &&& self.span == self.resolution * (self.num_slices - 1)
    }

    /// The clock can read the moment at which the first tick ends.
    pub open spec fn first_tick_readable(self) -> bool {
        self.tick_origin + self.resolution <= u64::MAX
    }

    /// The number of whole ticks from `start` to `end`, none where `end`
    /// is the earlier, and no more than the window has slices.
    pub open spec fn interval_ticks(self, start: int, end: int) -> nat {
        if end < start {
            0
        } else if end >= start + self.span {
            (self.num_slices - 1) as nat
        } else {
            ((end - start) / (self.resolution as int)) as nat
        }
    }

    /// The number of whole ticks from the origin to `moment`, none for a
    /// moment before the origin.
    pub open spec fn offset_ticks(self, moment: int) -> nat {
        if moment <= self.tick_origin {
            0
        } else {
            ((moment - self.tick_origin) / (self.resolution as int)) as nat
        }
    }

    /// The place in the ring of the tick that `moment` falls into.
    pub open spec fn slot(self, moment: int) -> nat {
        self.offset_ticks(moment) % self.num_slices
    }

    /// The place in the ring that a rotation overwrites when the next tick
    /// was to begin at `tick_at`: that of the tick which lies as many ticks
    /// as the ring is long before the moment at which the tick after the
    /// next begins.
    pub open spec fn rotation_slot(self, tick_at: nat) -> nat {
        self.slot(tick_at + self.resolution - self.num_slices * self.resolution)
    }

    /// The places in the ring that the two ends of a range of time select.
    pub open spec fn range(self, start: int, end: int) -> (nat, nat) {
        (
            self.slot(start),
            (self.slot(start) + self.interval_ticks(start, end)) % self.num_slices,
        )
    }

    /// The same window, moved so that it starts at `started` on the wall
    /// clock.
    pub open spec fn moved_to_unix(self, started: nat) -> CommonView {
        CommonView {
            started,
            tick_origin: (self.tick_origin + started - self.started) as nat,
            ..self
        }
    }

    /// The same window, moved so that its ticks are counted from
    /// `tick_origin` on the monotonic clock.
    pub open spec fn moved_to_instant(self, tick_origin: nat) -> CommonView {
        CommonView {
            started: (self.started + tick_origin - self.tick_origin) as nat,
            tick_origin,
            ..self
        }
    }
}

/// A window as mathematical values: its parameters, the layout of its
/// histograms, the moment at which the next tick begins, and the counters
/// of the ring and of the live histogram.
pub struct WindowView {
    pub common: CommonView,
    pub layout: Layout,
    pub tick_at: nat,
    pub snapshots: Seq<Seq<u64>>,
    pub live: Seq<u64>,
}

impl WindowView {
    /// The ring has a place for every slice and one more, every histogram
    /// has a counter for every bucket, and the next tick begins a whole
    /// number of ticks after the origin, one at least.
    pub open spec fn valid(self) -> bool {
        &&& self.common.valid()
        &&& self.layout.valid()
        &&& self.snapshots.len() == self.common.num_slices
        &&& forall|i: int|
            0 <= i < self.snapshots.len() ==> (#[trigger] self.snapshots[i]).len()
                == self.layout.total_bins()
        &&& self.live.len() == self.layout.total_bins()
        &&& self.tick_at >= self.common.tick_origin + self.common.resolution
        &&& (self.tick_at - self.common.tick_origin) % (self.common.resolution as int) == 0
    }

    /// The number of the tick that begins next, counted from the origin.
    pub open spec fn ticks(self) -> nat {
        ((self.tick_at - self.common.tick_origin) / (self.common.resolution as int)) as nat
    }

    /// The next tick begins a whole number of ticks after the origin.
    pub proof fn lemma_ticks(self)
        requires
            self.valid(),
        ensures
            self.ticks() >= 1,
            self.tick_at == self.common.tick_origin + self.ticks() * self.common.resolution,
    {
        let d = self.common.resolution as int;
        let x = self.tick_at - self.common.tick_origin;
        lemma_fundamental_div_mod(x, d);
        let q = x / d;
        assert(d * q == q * d) by (nonlinear_arith);
        if q < 1 {
            assert(q * d <= 0) by (nonlinear_arith)
                requires
                    q <= 0,
                    d > 0,
            ;
        }
    }

    /// The place in the ring that the next rotation overwrites: that of
    /// the tick which lies as many ticks as the ring is long before the
    /// moment at which the tick after the next begins.
    pub open spec fn rotation_slot(self) -> nat {
        self.common.rotation_slot(self.tick_at)
    }

    /// The window after a writer has come at `instant`: unchanged before
    /// the next tick begins; from then on moved forward by one tick, with
    /// the live counters copied to the place that the rotation overwrites.
    pub open spec fn advanced(self, instant: nat) -> WindowView {
        if instant < self.tick_at {
            self
        } else {
            WindowView {
                tick_at: self.tick_at + self.common.resolution,
                snapshots: self.snapshots.update(self.rotation_slot() as int, self.live),
                ..self
            }
        }
    }

    /// The window after `count` occurrences of `value` were counted in the
    /// live histogram, which a value that the layout cannot represent
    /// leaves as it is.
    pub open spec fn counted(self, value: u64, count: u64) -> WindowView {
        if value >= self.layout.limit() {
            self
        } else {
            let index = self.layout.index_of(value as nat) as int;
            WindowView {
                live: self.live.update(index, wrapping_sum(self.live[index], count)),
                ..self
            }
        }
    }

    /// What was counted between the two readings that `start` and `end`
    /// select: for every bucket, the reading for `end` less the reading for
    /// `start`.
    pub open spec fn delta(self, start: int, end: int) -> Seq<u64> {
        let (first, last) = self.common.range(start, end);
        differences(self.snapshots[last as int], self.snapshots[first as int])
    }

    /// What is read as counted in the time `reach` up to the beginning of
    /// the current tick. The longest time that the ring answers for is the
    /// span less one tick: for the span itself, the earlier of the two
    /// readings is the one that the ring holds as its newest.
    pub open spec fn last(self, reach: nat) -> Seq<u64> {
        let end = self.tick_at - self.common.resolution;
        self.delta(end - reach, end)
    }

    /// What is read as counted over the whole span: the newest reading
    /// that the ring holds less the oldest.
    pub open spec fn whole(self) -> Seq<u64> {
        self.delta(self.tick_at - self.common.span, self.tick_at as int)
    }
}

/// Values and numbers of occurrences, as the buckets of a layout that they
/// are counted in.
pub open spec fn bucket_events(layout: Layout, events: Seq<(u64, u64)>) -> Seq<(int, u64)> {
    Seq::new(events.len(), |k: int| (layout.index_of(events[k].0 as nat) as int, events[k].1))
}

impl WindowView {
    /// The window after the `events` were counted in the live histogram in
    /// order, each a value and a number of occurrences.
    pub open spec fn counted_all(self, events: Seq<(u64, u64)>) -> WindowView
        decreases events.len(),
    {
        if events.len() == 0 {
            self
        } else {
            self.counted_all(events.drop_last()).counted(events.last().0, events.last().1)
        }
    }

    /// Counting changes the live counters alone, and makes of them what
    /// recording the events in their buckets does.
    pub proof fn lemma_counted_all(self, events: Seq<(u64, u64)>)
        requires
            self.valid(),
            forall|k: int| 0 <= k < events.len() ==> (#[trigger] events[k]).0 < self.layout.limit(),
        ensures
            self.counted_all(events).valid(),
            self.counted_all(events) == (WindowView {
                live: recorded(self.live, bucket_events(self.layout, events)),
                ..self
            }),
        decreases events.len(),
    {
        if events.len() > 0 {
            let front = events.drop_last();
            assert forall|k: int| 0 <= k < front.len() implies (#[trigger] front[k]).0
                < self.layout.limit() by {
                assert(front[k] == events[k]);
            }
            self.lemma_counted_all(front);
            let last = events.last();
            assert(last == events[events.len() - 1]);
            self.layout.lemma_value_in_bucket(last.0 as nat);
            assert(bucket_events(self.layout, events).drop_last() =~= bucket_events(
                self.layout,
                front,
            ));
        }
    }

    /// A writer moves the window forward by one tick at most, and never
    /// back. What moves it overwrites one place of the ring with the live
    /// counters and leaves every other place, and the live counters, as
    /// they are.
    pub proof fn lemma_advanced(self, instant: nat)
        requires
            self.valid(),
        ensures
            self.advanced(instant).valid(),
            self.advanced(instant).tick_at == self.tick_at || self.advanced(instant).tick_at
                == self.tick_at + self.common.resolution,
            self.advanced(instant).tick_at == self.tick_at <==> instant < self.tick_at,
            self.advanced(instant).live == self.live,
            self.advanced(instant).common == self.common,
            self.rotation_slot() < self.snapshots.len(),
            forall|place: int|
                0 <= place < self.snapshots.len() && place != self.rotation_slot() ==> (
                #[trigger] self.advanced(instant).snapshots[place]) == self.snapshots[place],
            instant >= self.tick_at ==> self.advanced(instant).snapshots[self.rotation_slot() as int]
                == self.live,
    {
        lemma_mod_bound(
            self.common.offset_ticks(
                self.tick_at + self.common.resolution - self.common.num_slices
                    * self.common.resolution,
            ) as int,
            self.common.num_slices as int,
        );
        lemma_add_mod_noop(
            self.tick_at - self.common.tick_origin,
            self.common.resolution as int,
            self.common.resolution as int,
        );
        lemma_mod_self_0(self.common.resolution as int);
        lemma_small_mod(0, self.common.resolution);
    }

    /// The delta law. Where one rotation copies the live counters to one
    /// place of the ring and a later one to another, the difference of the
    /// two readings is, for every bucket, what was counted in it between
    /// the two rotations, modulo `2^64`.
    ///
    /// The two rotations must overwrite different places. In the first
    /// ticks of a window they do not: the place for a moment before the
    /// origin is the first, whatever the moment.
    pub proof fn lemma_delta_between_rotations(
        self,
        first: nat,
        events: Seq<(u64, u64)>,
        second: nat,
        bucket: int,
    )
        requires
            self.valid(),
            first >= self.tick_at,
            forall|k: int| 0 <= k < events.len() ==> (#[trigger] events[k]).0 < self.layout.limit(),
            second >= self.advanced(first).counted_all(events).tick_at,
            self.advanced(first).counted_all(events).rotation_slot() != self.rotation_slot(),
            0 <= bucket < self.layout.total_bins(),
        ensures
            ({
                let earlier = self.rotation_slot() as int;
                let later = self.advanced(first).counted_all(events).rotation_slot() as int;
                let after = self.advanced(first).counted_all(events).advanced(second);
                differences(after.snapshots[later], after.snapshots[earlier])[bucket] == tally(
                    bucket_events(self.layout, events),
                    bucket,
                ) % 0x1_0000_0000_0000_0000
            }),
    {
        let turned = self.advanced(first);
        self.lemma_advanced(first);
        turned.lemma_counted_all(events);
        let filled = turned.counted_all(events);
        filled.lemma_advanced(second);
        let pairs = bucket_events(self.layout, events);
        assert forall|k: int| 0 <= k < pairs.len() implies 0 <= (#[trigger] pairs[k]).0
            < self.live.len() by {
            assert(events[k].0 < self.layout.limit());
            self.layout.lemma_value_in_bucket(events[k].0 as nat);
        }
        lemma_difference_is_tally(self.live, pairs, bucket);
    }
}

/// What all windows share: the length of a tick and of the window, where
/// the window starts on both clocks, and the length of the ring.
#[derive(Clone, Copy)]
pub struct Common {
    resolution: Duration,
    span: Duration,
    started: UnixInstant,
    tick_origin: Instant,
    num_slices: usize,
}

impl View for Common {
    type V = CommonView;

    closed spec fn view(&self) -> CommonView {
        CommonView {
            resolution: self.resolution@,
            span: self.span@,
            started: self.started@,
            tick_origin: self.tick_origin@,
            num_slices: self.num_slices as nat,
        }
    }
}

impl Common {
    #[verifier::type_invariant]
    spec fn inv(self) -> bool {
        self@.valid()
    }

    /// What `with_nanos` answers.
    ///
    /// The resolution must be a microsecond at least and fit a `u64` in
    /// nanoseconds. The span, which is the resolution times the number of
    /// slices, must fit a `u64` too and may not reach back beyond the
    /// moment at which the clock read zero. The ring, which has one place
    /// more than there are slices, must be countable in a `usize`.
    pub open spec fn spec_new(
        a: u8,
        b: u8,
        n: u8,
        nanos: u128,
        slices: usize,
        started: UnixInstant,
        now: Instant,
    ) -> Result<CommonView, BuildError> {
        if nanos > u64::MAX {
            Err(BuildError::ResolutionTooLarge)
        } else if nanos < MIN_RESOLUTION {
            Err(BuildError::ResolutionTooSmall)
        } else if nanos * slices > u64::MAX {
            Err(BuildError::SpanTooLong)
        } else if Config::spec_new(a, b, n) is Err {
            Err(Config::spec_new(a, b, n)->Err_0)
        } else if slices + 1 > usize::MAX || nanos * slices > now@ {
            Err(BuildError::SpanTooLong)
        } else {
            Ok(
                CommonView {
                    resolution: nanos as nat,
                    span: (nanos * slices) as nat,
                    started: started@,
                    tick_origin: (now@ - nanos * slices) as nat,
                    num_slices: (slices + 1) as nat,
                },
            )
        }
    }

    /// What a constructor answers that validates the parameters of a
    /// window and then makes the window: what `with_nanos` answers,
    /// `TooManyBuckets` for a layout of more than `max_bins()` buckets, and
    /// `ResolutionTooLarge` where the clock cannot read the moment at which
    /// the first tick ends.
    pub open spec fn spec_window(
        a: u8,
        b: u8,
        n: u8,
        nanos: u128,
        slices: usize,
        started: UnixInstant,
        now: Instant,
    ) -> Result<CommonView, BuildError> {
        match Self::spec_new(a, b, n, nanos, slices, started, now) {
            Err(e) => Err(e),
            Ok(common) => if Config::spec_counters(a, b, n) is Err {
                Err(BuildError::TooManyBuckets)
            } else if !common.first_tick_readable() {
                Err(BuildError::ResolutionTooLarge)
            } else {
                Ok(common)
            },
        }
    }

    /// Validates the parameters of a window of `slices` slices of the
    /// length `resolution` each, which ends at the moment that the two
    /// clocks read as `started` and `now`.
    pub fn new(
        a: u8,
        b: u8,
        n: u8,
        resolution: core::time::Duration,
        slices: usize,
        started: UnixInstant,
        now: Instant,
    ) -> (r: Result<Common, BuildError>)
        ensures
            match r {
                Ok(common) => Self::spec_new(
                    a,
                    b,
                    n,
                    duration_nanos(resolution),
                    slices,
                    started,
                    now,
                ) == Ok::<CommonView, BuildError>(common@),
                Err(e) => Self::spec_new(
                    a,
                    b,
                    n,
                    duration_nanos(resolution),
                    slices,
                    started,
                    now,
                ) == Err::<CommonView, BuildError>(e),
            },
    {
        Self::with_nanos(a, b, n, resolution.as_nanos(), slices, started, now)
    }

    /// Validates the parameters of a window of `slices` slices of `nanos`
    /// nanoseconds each, which ends at the moment that the two clocks read
    /// as `started` and `now`.
    pub fn with_nanos(
        a: u8,
        b: u8,
        n: u8,
        nanos: u128,
        slices: usize,
        started: UnixInstant,
        now: Instant,
    ) -> (r: Result<Common, BuildError>)
        ensures
            match r {
                Ok(common) => Self::spec_new(a, b, n, nanos, slices, started, now) == Ok::<
                    CommonView,
                    BuildError,
                >(common@),
                Err(e) => Self::spec_new(a, b, n, nanos, slices, started, now) == Err::<
                    CommonView,
                    BuildError,
                >(e),
            },
    {
        if nanos > u64::MAX as u128 {
            return Err(BuildError::ResolutionTooLarge);
        }
        if nanos < MIN_RESOLUTION as u128 {
            return Err(BuildError::ResolutionTooSmall);
        }
        assert(nanos * slices <= 0xffff_ffff_ffff_ffff * 0xffff_ffff_ffff_ffff) by (nonlinear_arith)
            requires
                nanos <= 0xffff_ffff_ffff_ffff,
                slices <= 0xffff_ffff_ffff_ffff,
        ;
        let span: u128 = nanos * (slices as u128);
        if span > u64::MAX as u128 {
            return Err(BuildError::SpanTooLong);
        }
        match Config::new(a, b, n) {
            Err(e) => {
                return Err(e);
            },
            Ok(_) => {},
        }
        if slices == usize::MAX {
            return Err(BuildError::SpanTooLong);
        }
        let span = Duration::from_nanos(span as u64);
        let resolution = Duration::from_nanos(nanos as u64);
        match now.checked_sub(span) {
            None => Err(BuildError::SpanTooLong),
            Some(tick_origin) => Ok(
                Common { resolution, span, started, tick_origin, num_slices: slices + 1 },
            ),
        }
    }

    /// The length of the ring: one more than the number of slices.
    pub fn num_slices(&self) -> (r: usize)
        ensures
            r == self@.num_slices,
            r >= 1,
    {
        proof {
            use_type_invariant(self);
        }
        self.num_slices
    }

    /// The moment from which ticks are counted.
    pub fn tick_origin(&self) -> (r: Instant)
        ensures
            r@ == self@.tick_origin,
    {
        self.tick_origin
    }

    /// The moment on the wall clock at which the window starts.
    pub fn started(&self) -> (r: UnixInstant)
        ensures
            r@ == self@.started,
    {
        self.started
    }

    /// The length of a tick.
    pub fn resolution(&self) -> (r: Duration)
        ensures
            r@ == self@.resolution,
            r@ >= MIN_RESOLUTION,
    {
        proof {
            use_type_invariant(self);
        }
        self.resolution
    }

    /// The length of the window.
    pub fn span(&self) -> (r: Duration)
        ensures
            r@ == self@.span,
            self@.valid(),
    {
        proof {
            use_type_invariant(self);
        }
        self.span
    }

    /// The place in the ring of the tick that `moment` falls into. The
    /// moment is given in nanoseconds and may lie before the clock's zero.
    pub fn slot(&self, moment: i128) -> (r: usize)
        requires
            -0x4_0000_0000_0000_0000 <= moment <= 0x4_0000_0000_0000_0000,
        ensures
            r == self@.slot(moment as int),
            r < self@.num_slices,
    {
        proof {
            use_type_invariant(self);
        }
        let origin: i128 = self.tick_origin.as_nanos() as i128;
        let resolution: u128 = self.resolution.as_nanos() as u128;
        let ticks: u128 = if moment <= origin {
            0
        } else {
            ((moment - origin) as u128) / resolution
        };
        proof {
            lemma_mod_bound(ticks as int, self.num_slices as int);
        }
        (ticks % (self.num_slices as u128)) as usize
    }

    /// The places in the ring that the two ends of a range of time select.
    /// Both moments are given in nanoseconds and may lie before the
    /// clock's zero.
    pub fn range_between(&self, start: i128, end: i128) -> (r: (usize, usize))
        requires
            -0x4_0000_0000_0000_0000 <= start <= 0x4_0000_0000_0000_0000,
            -0x4_0000_0000_0000_0000 <= end <= 0x4_0000_0000_0000_0000,
        ensures
            r.0 == self@.range(start as int, end as int).0,
            r.1 == self@.range(start as int, end as int).1,
            r.0 < self@.num_slices,
            r.1 < self@.num_slices,
    {
        proof {
            use_type_invariant(self);
        }
        let resolution: u128 = self.resolution.as_nanos() as u128;
        let span: i128 = self.span.as_nanos() as i128;
        let interval: u128 = if end < start {
            0
        } else if end - start >= span {
            (self.num_slices - 1) as u128
        } else {
            proof {
                lemma_quotient_below(
                    (end - start) as nat,
                    self@.resolution,
                    (self@.num_slices - 1) as nat,
                );
            }
            ((end - start) as u128) / resolution
        };
        let first = self.slot(start);
        proof {
            lemma_mod_bound(first + interval, self.num_slices as int);
        }
        let last = ((first as u128 + interval) % (self.num_slices as u128)) as usize;
        (first, last)
    }

    /// The places in the ring that hold the readings for `start` and for
    /// `end`.
    ///
    /// The first is that of the tick that `start` falls into, counted from
    /// the origin, or of the first tick for a moment before the origin. The
    /// second lies as many whole ticks further round the ring as there are
    /// from `start` to `end`: none where `end` is the earlier, and no more
    /// than the window has slices.
    pub fn range(&self, start: Instant, end: Instant) -> (r: (usize, usize))
        ensures
            r.0 == self@.range(start@ as int, end@ as int).0,
            r.1 == self@.range(start@ as int, end@ as int).1,
            r.0 < self@.num_slices,
            r.1 < self@.num_slices,
    {
        self.range_between(start.as_nanos() as i128, end.as_nanos() as i128)
    }

    /// What a rotation does when the next tick was to begin at `tick_at`:
    /// the moment at which the tick after it begins, and the place in the
    /// ring that is overwritten.
    pub fn rotation(&self, tick_at: Instant) -> (r: (Instant, usize))
        requires
            tick_at@ + self@.resolution <= u64::MAX,
        ensures
            r.0@ == tick_at@ + self@.resolution,
            r.1 == self@.rotation_slot(tick_at@),
            r.1 < self@.num_slices,
    {
        proof {
            use_type_invariant(self);
        }
        let resolution: u64 = self.resolution.as_nanos();
        let span: u64 = self.span.as_nanos();
        let slots = self.num_slices;
        let tick_next: u64 = tick_at.as_nanos() + resolution;
        assert(slots * resolution <= 0xffff_ffff_ffff_ffff * 0xffff_ffff_ffff_ffff)
            by (nonlinear_arith)
            requires
                slots <= 0xffff_ffff_ffff_ffff,
                resolution <= 0xffff_ffff_ffff_ffff,
        ;
        assert(slots * resolution == resolution * (slots - 1) + resolution) by (nonlinear_arith);
        let reach: u128 = (slots as u128) * (resolution as u128);
        assert(reach == span + resolution);
        let slot = self.slot(tick_next as i128 - reach as i128);
        (Instant::from_nanos(tick_next), slot)
    }

    /// The moment at which the first tick ends, or `None` where the clock
    /// cannot read it.
    pub fn first_tick(&self) -> (r: Option<Instant>)
        ensures
            self@.first_tick_readable() <==> r is Some,
            r is Some ==> r->Some_0@ == self@.tick_origin + self@.resolution,
    {
        self.tick_origin.checked_add(self.resolution)
    }
}

/// A quotient of a number below `d * k` is below `k`.
proof fn lemma_quotient_below(x: nat, d: nat, k: nat)
    requires
        d > 0,
        x < d * k,
    ensures
        x / d < k,
        0 <= x / d,
{
    lemma_fundamental_div_mod(x as int, d as int);
    let q = x as int / d as int;
    assert(0 <= q) by (nonlinear_arith)
        requires
            q == x as int / d as int,
            d > 0,
            x >= 0,
    ;
    if q >= k {
        assert(d * q >= d * k) by (nonlinear_arith)
            requires
                q >= k,
                d > 0,
        ;
    }
}

/// The parameters of a window that is yet to be built. The window may be
/// moved to start at a chosen moment of either clock.
pub struct Builder {
    common: Common,
    config: Config,
}

impl Builder {
    /// The parameters of the window.
    pub closed spec fn spec_common(&self) -> CommonView {
        self.common@
    }

    /// The layout of the histograms of the window.
    pub closed spec fn layout(&self) -> Layout {
        self.config@
    }

    /// The parameters of the window.
    pub fn common(&self) -> (r: Common)
        ensures
            r@ == self.spec_common(),
    {
        self.common
    }

    /// The layout of the histograms of the window.
    pub fn config(&self) -> (r: Config)
        ensures
            r@ == self.layout(),
    {
        self.config
    }

    /// Validates the parameters of a window of `slices` slices of the
    /// length `resolution` each, over histograms of the layout `(a, b, n)`,
    /// which ends at the moment that the two clocks read as `started` and
    /// `now`.
    pub fn new(
        a: u8,
        b: u8,
        n: u8,
        resolution: core::time::Duration,
        slices: usize,
        started: UnixInstant,
        now: Instant,
    ) -> (r: Result<Builder, BuildError>)
        ensures
            match r {
                Ok(builder) => Common::spec_new(
                    a,
                    b,
                    n,
                    duration_nanos(resolution),
                    slices,
                    started,
                    now,
                ) == Ok::<CommonView, BuildError>(builder.spec_common()) && Config::spec_new(a, b, n)
                    == Ok::<Layout, BuildError>(builder.layout()),
                Err(e) => Common::spec_new(
                    a,
                    b,
                    n,
                    duration_nanos(resolution),
                    slices,
                    started,
                    now,
                ) == Err::<CommonView, BuildError>(e),
            },
    {
        match Common::new(a, b, n, resolution, slices, started, now) {
            Err(e) => Err(e),
            Ok(common) => match Config::new(a, b, n) {
                Err(e) => Err(e),
                Ok(config) => Ok(Builder { common, config }),
            },
        }
    }

    /// What `build` and `build_atomic` answer but a window:
    /// `TooManyBuckets` for a layout of more than `max_bins()` buckets, and
    /// `ResolutionTooLarge` where the clock cannot read the moment at which
    /// the first tick ends.
    pub open spec fn spec_build(&self) -> Option<BuildError> {
        if self.layout().total_bins() > max_bins() {
            Some(BuildError::TooManyBuckets)
        } else if !self.spec_common().first_tick_readable() {
            Some(BuildError::ResolutionTooLarge)
        } else {
            None
        }
    }

    /// Makes the window for a single writer, with every counter at zero.
    pub fn build(self) -> (r: Result<standard::Histogram, BuildError>)
        ensures
            match r {
                Err(e) => self.spec_build() == Some(e),
                Ok(h) => {
                    &&& self.spec_build() is None
                    &&& h.wf()
                    &&& h@.valid()
                    &&& h@.common == self.spec_common()
                    &&& h@.layout == self.layout()
                    &&& h@.tick_at == self.spec_common().tick_origin
                        + self.spec_common().resolution
                    &&& h@.live == zeros(self.layout().total_bins())
                    &&& forall|i: int|
                        0 <= i < h@.snapshots.len() ==> h@.snapshots[i] == zeros(
                            self.layout().total_bins(),
                        )
                },
            },
    {
        if self.config.checked_total_bins().is_none() {
            return Err(BuildError::TooManyBuckets);
        }
        if self.common.first_tick().is_none() {
            return Err(BuildError::ResolutionTooLarge);
        }
        Ok(standard::Histogram::from_parts(self.common, self.config))
    }

    /// Makes the window for many writers, with every counter at zero.
    pub fn build_atomic(self) -> (r: Result<atomic::Histogram, BuildError>)
        ensures
            match r {
                Err(e) => self.spec_build() == Some(e),
                Ok(h) => self.spec_build() is None && h.wf() && h.spec_common()
                    == self.spec_common() && h.layout() == self.layout(),
            },
    {
        if self.config.checked_total_bins().is_none() {
            return Err(BuildError::TooManyBuckets);
        }
        if self.common.first_tick().is_none() {
            return Err(BuildError::ResolutionTooLarge);
        }
        Ok(atomic::Histogram::from_parts(self.common, self.config))
    }

    /// The same window, moved so that it starts at `start` on the wall
    /// clock. The origin of its ticks moves by as much, and must stay a
    /// moment that the monotonic clock can read.
    pub fn start_unix(self, start: UnixInstant) -> (r: Builder)
        requires
            0 <= self.spec_common().tick_origin + start@ - self.spec_common().started <= u64::MAX,
        ensures
            r.spec_common() == self.spec_common().moved_to_unix(start@),
            r.layout() == self.layout(),
    {
        proof {
            use_type_invariant(&self.common);
        }
        let common = self.common;
        let tick_origin = if common.started.as_nanos() < start.as_nanos() {
            let delta = start.as_nanos() - common.started.as_nanos();
            Instant::from_nanos(common.tick_origin.as_nanos() + delta)
        } else {
            let delta = common.started.as_nanos() - start.as_nanos();
            Instant::from_nanos(common.tick_origin.as_nanos() - delta)
        };
        Builder {
            common: Common { started: start, tick_origin, ..common },
            config: self.config,
        }
    }

    /// The same window, moved so that its ticks are counted from `start`
    /// on the monotonic clock. Its start on the wall clock moves by as
    /// much, and must stay a moment that the wall clock can read.
    pub fn start_instant(self, start: Instant) -> (r: Builder)
        requires
            0 <= self.spec_common().started + start@ - self.spec_common().tick_origin <= u64::MAX,
        ensures
            r.spec_common() == self.spec_common().moved_to_instant(start@),
            r.layout() == self.layout(),
    {
        proof {
            use_type_invariant(&self.common);
        }
        let common = self.common;
        let started = if common.tick_origin.as_nanos() < start.as_nanos() {
            let delta = start.as_nanos() - common.tick_origin.as_nanos();
            UnixInstant::from_nanos(common.started.as_nanos() + delta)
        } else {
            let delta = common.tick_origin.as_nanos() - start.as_nanos();
            UnixInstant::from_nanos(common.started.as_nanos() - delta)
        };
        Builder {
            common: Common { started, tick_origin: start, ..common },
            config: self.config,
        }
    }
}

} // verus!
