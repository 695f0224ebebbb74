//! Moments and spans of time to the nanosecond, each a `u64` counter.
//!
//! The clock is not read here: a reading comes from outside and is given
//! to `from_nanos`.

use std::sync::atomic::{AtomicU64, Ordering};
use vstd::prelude::*;
use vstd::std_specs::ops::{AddSpecImpl, SubSpecImpl};

verus! {

/// A span of time in whole nanoseconds.
#[derive(Clone, Copy, Debug, Default, Hash, PartialEq, Eq, PartialOrd, Ord, Structural)]
pub struct Duration {
    ns: u64,
}

impl View for Duration {
    type V = nat;

    closed spec fn view(&self) -> nat {
        self.ns as nat
    }
}

impl Duration {
    /// The span of `ns` nanoseconds, as a value of specifications.
    pub closed spec fn spec_from_nanos(ns: u64) -> Duration {
        Duration { ns }
    }

    /// The span that `from_nanos` makes is the number of nanoseconds given.
    pub broadcast proof fn lemma_spec_from_nanos(ns: u64)
        ensures
            (#[trigger] Duration::spec_from_nanos(ns))@ == ns,
    {
    }

    /// Two spans of one length are the same span.
    pub proof fn lemma_view_injective(self, other: Duration)
        requires
            self@ == other@,
        ensures
            self == other,
    {
    }

    /// The span of `ns` nanoseconds.
    pub fn from_nanos(ns: u64) -> (r: Duration)
        ensures
            r@ == ns,
            r == Duration::spec_from_nanos(ns),
    {
        Duration { ns }
    }

    /// The span of `micros` microseconds.
    pub fn from_micros(micros: u32) -> (r: Duration)
        ensures
            r@ == micros * 1_000,
    {
        Duration { ns: micros as u64 * 1_000 }
    }

    /// The span of `millis` milliseconds.
    pub fn from_millis(millis: u32) -> (r: Duration)
        ensures
            r@ == millis * 1_000_000,
    {
        Duration { ns: millis as u64 * 1_000_000 }
    }

    /// The span of `secs` seconds.
    pub fn from_secs(secs: u32) -> (r: Duration)
        ensures
            r@ == secs * 1_000_000_000,
    {
        Duration { ns: secs as u64 * 1_000_000_000 }
    }

    /// The span in nanoseconds.
    pub fn as_nanos(&self) -> (r: u64)
        ensures
            r == self@,
    {
        self.ns
    }
}

/// A moment on the monotonic clock, as the number of nanoseconds that the clock
/// had counted.
#[derive(Clone, Copy, Debug, Default, Hash, PartialEq, Eq, PartialOrd, Ord, Structural)]
pub struct Instant {
    ns: u64,
}

impl View for Instant {
    type V = nat;

    closed spec fn view(&self) -> nat {
        self.ns as nat
    }
}

impl Instant {
    /// The moment of the reading `ns`, as a value of specifications.
    pub closed spec fn spec_from_nanos(ns: u64) -> Instant {
        Instant { ns }
    }

    /// The moment that `from_nanos` makes is the reading given.
    pub broadcast proof fn lemma_spec_from_nanos(ns: u64)
        ensures
            (#[trigger] Instant::spec_from_nanos(ns))@ == ns,
    {
    }

    /// Two moments of one reading are the same moment.
    pub proof fn lemma_view_injective(self, other: Instant)
        requires
            self@ == other@,
        ensures
            self == other,
    {
    }

    /// The moment at which the clock read `ns` nanoseconds.
    pub fn from_nanos(ns: u64) -> (r: Instant)
        ensures
            r@ == ns,
            r == Instant::spec_from_nanos(ns),
    {
        Instant { ns }
    }

    /// The reading of the clock at this moment, in nanoseconds.
    pub fn as_nanos(&self) -> (r: u64)
        ensures
            r == self@,
    {
        self.ns
    }

    /// The time from this moment until `now`, which is not before it.
    pub fn elapsed(&self, now: Instant) -> (r: Duration)
        requires
            self@ <= now@,
        ensures
            r@ == now@ - self@,
    {
        Duration { ns: now.ns - self.ns }
    }

    /// The time from `earlier`, which is not after this moment, until this
    /// moment.
    pub fn duration_since(&self, earlier: Instant) -> (r: Duration)
        requires
            earlier@ <= self@,
        ensures
            r@ == self@ - earlier@,
    {
        Duration { ns: self.ns - earlier.ns }
    }

    /// The time from `earlier` until this moment, or `None` where `earlier`
    /// is the later of the two.
    pub fn checked_duration_since(&self, earlier: Instant) -> (r: Option<Duration>)
        ensures
            earlier@ <= self@ <==> r is Some,
            r is Some ==> r->Some_0@ == self@ - earlier@,
    {
        if earlier.ns <= self.ns {
            Some(Duration { ns: self.ns - earlier.ns })
        } else {
            None
        }
    }

    /// The moment `duration` before this one, or `None` where the clock
    /// cannot have read it.
    pub fn checked_sub(&self, duration: Duration) -> (r: Option<Instant>)
        ensures
            duration@ <= self@ <==> r is Some,
            r is Some ==> r->Some_0@ == self@ - duration@,
    {
        if duration.ns <= self.ns {
            Some(Instant { ns: self.ns - duration.ns })
        } else {
            None
        }
    }

    /// The moment `duration` after this one, or `None` where the clock
    /// cannot read it.
    pub fn checked_add(&self, duration: Duration) -> (r: Option<Instant>)
        ensures
            self@ + duration@ <= u64::MAX <==> r is Some,
            r is Some ==> r->Some_0@ == self@ + duration@,
    {
        if duration.ns <= u64::MAX - self.ns {
            Some(Instant { ns: self.ns + duration.ns })
        } else {
            None
        }
    }
}

impl core::ops::Add<Duration> for Instant {
    type Output = Instant;

    fn add(self, rhs: Duration) -> (r: Instant) {
        Instant { ns: self.ns + rhs.ns }
    }
}

impl AddSpecImpl<Duration> for Instant {
    open spec fn obeys_add_spec() -> bool {
        true
    }

    open spec fn add_req(self, rhs: Duration) -> bool {
        self@ + rhs@ <= u64::MAX
    }

    open spec fn add_spec(self, rhs: Duration) -> Instant {
        Instant::spec_from_nanos((self@ + rhs@) as u64)
    }
}

impl core::ops::Sub<Duration> for Instant {
    type Output = Instant;

    fn sub(self, rhs: Duration) -> (r: Instant) {
        Instant { ns: self.ns - rhs.ns }
    }
}

impl SubSpecImpl<Duration> for Instant {
    open spec fn obeys_sub_spec() -> bool {
        true
    }

    open spec fn sub_req(self, rhs: Duration) -> bool {
        rhs@ <= self@
    }

    open spec fn sub_spec(self, rhs: Duration) -> Instant {
        Instant::spec_from_nanos((self@ - rhs@) as u64)
    }
}

impl core::ops::Sub<Instant> for Instant {
    type Output = Duration;

    fn sub(self, rhs: Instant) -> (r: Duration) {
        Duration { ns: self.ns - rhs.ns }
    }
}

impl SubSpecImpl<Instant> for Instant {
    open spec fn obeys_sub_spec() -> bool {
        true
    }

    open spec fn sub_req(self, rhs: Instant) -> bool {
        rhs@ <= self@
    }

    open spec fn sub_spec(self, rhs: Instant) -> Duration {
        Duration::spec_from_nanos((self@ - rhs@) as u64)
    }
}

/// A moment on the wall clock, as the number of nanoseconds since the Unix epoch.
#[derive(Clone, Copy, Debug, Default, Hash, PartialEq, Eq, PartialOrd, Ord, Structural)]
pub struct UnixInstant {
    ns: u64,
}

impl View for UnixInstant {
    type V = nat;

    closed spec fn view(&self) -> nat {
        self.ns as nat
    }
}

impl UnixInstant {
    /// The moment from which the wall clock counts.
    pub fn epoch() -> (r: UnixInstant)
        ensures
            r@ == 0,
    {
        UnixInstant { ns: 0 }
    }

    /// The moment of the reading `ns`, as a value of specifications.
    pub closed spec fn spec_from_nanos(ns: u64) -> UnixInstant {
        UnixInstant { ns }
    }

    /// The moment that `from_nanos` makes is the reading given.
    pub broadcast proof fn lemma_spec_from_nanos(ns: u64)
        ensures
            (#[trigger] UnixInstant::spec_from_nanos(ns))@ == ns,
    {
    }

    /// Two moments of one reading are the same moment.
    pub proof fn lemma_view_injective(self, other: UnixInstant)
        requires
            self@ == other@,
        ensures
            self == other,
    {
    }

    /// The moment at which the clock read `ns` nanoseconds.
    pub fn from_nanos(ns: u64) -> (r: UnixInstant)
        ensures
            r@ == ns,
            r == UnixInstant::spec_from_nanos(ns),
    {
        UnixInstant { ns }
    }

    /// The reading of the clock at this moment, in nanoseconds.
    pub fn as_nanos(&self) -> (r: u64)
        ensures
            r == self@,
    {
        self.ns
    }

    /// The time from this moment until `now`, which is not before it.
    pub fn elapsed(&self, now: UnixInstant) -> (r: Duration)
        requires
            self@ <= now@,
        ensures
            r@ == now@ - self@,
    {
        Duration { ns: now.ns - self.ns }
    }

    /// The time from `earlier`, which is not after this moment, until this
    /// moment.
    pub fn duration_since(&self, earlier: UnixInstant) -> (r: Duration)
        requires
            earlier@ <= self@,
        ensures
            r@ == self@ - earlier@,
    {
        Duration { ns: self.ns - earlier.ns }
    }

    /// The time from `earlier` until this moment, or `None` where `earlier`
    /// is the later of the two.
    pub fn checked_duration_since(&self, earlier: UnixInstant) -> (r: Option<Duration>)
        ensures
            earlier@ <= self@ <==> r is Some,
            r is Some ==> r->Some_0@ == self@ - earlier@,
    {
        if earlier.ns <= self.ns {
            Some(Duration { ns: self.ns - earlier.ns })
        } else {
            None
        }
    }

    /// The moment `duration` before this one, or `None` where the clock
    /// cannot have read it.
    pub fn checked_sub(&self, duration: Duration) -> (r: Option<UnixInstant>)
        ensures
            duration@ <= self@ <==> r is Some,
            r is Some ==> r->Some_0@ == self@ - duration@,
    {
        if duration.ns <= self.ns {
            Some(UnixInstant { ns: self.ns - duration.ns })
        } else {
            None
        }
    }

    /// The moment `duration` after this one, or `None` where the clock
    /// cannot read it.
    pub fn checked_add(&self, duration: Duration) -> (r: Option<UnixInstant>)
        ensures
            self@ + duration@ <= u64::MAX <==> r is Some,
            r is Some ==> r->Some_0@ == self@ + duration@,
    {
        if duration.ns <= u64::MAX - self.ns {
            Some(UnixInstant { ns: self.ns + duration.ns })
        } else {
            None
        }
    }
}

impl core::ops::Add<Duration> for UnixInstant {
    type Output = UnixInstant;

    fn add(self, rhs: Duration) -> (r: UnixInstant) {
        UnixInstant { ns: self.ns + rhs.ns }
    }
}

impl AddSpecImpl<Duration> for UnixInstant {
    open spec fn obeys_add_spec() -> bool {
        true
    }

    open spec fn add_req(self, rhs: Duration) -> bool {
        self@ + rhs@ <= u64::MAX
    }

    open spec fn add_spec(self, rhs: Duration) -> UnixInstant {
        UnixInstant::spec_from_nanos((self@ + rhs@) as u64)
    }
}

impl core::ops::Sub<Duration> for UnixInstant {
    type Output = UnixInstant;

    fn sub(self, rhs: Duration) -> (r: UnixInstant) {
        UnixInstant { ns: self.ns - rhs.ns }
    }
}

impl SubSpecImpl<Duration> for UnixInstant {
    open spec fn obeys_sub_spec() -> bool {
        true
    }

    open spec fn sub_req(self, rhs: Duration) -> bool {
        rhs@ <= self@
    }

    open spec fn sub_spec(self, rhs: Duration) -> UnixInstant {
        UnixInstant::spec_from_nanos((self@ - rhs@) as u64)
    }
}

impl core::ops::Sub<UnixInstant> for UnixInstant {
    type Output = Duration;

    fn sub(self, rhs: UnixInstant) -> (r: Duration) {
        Duration { ns: self.ns - rhs.ns }
    }
}

impl SubSpecImpl<UnixInstant> for UnixInstant {
    open spec fn obeys_sub_spec() -> bool {
        true
    }

    open spec fn sub_req(self, rhs: UnixInstant) -> bool {
        rhs@ <= self@
    }

    open spec fn sub_spec(self, rhs: UnixInstant) -> Duration {
        Duration::spec_from_nanos((self@ - rhs@) as u64)
    }
}

/// A moment on the monotonic clock that many may read and move at once.
/// Nothing is promised of what a read returns: others may have moved the
/// moment in between.
pub struct AtomicInstant {
    ns: AtomicU64,
}

impl AtomicInstant {
    /// A shared moment that starts out as `instant`.
    pub fn new(instant: Instant) -> (r: AtomicInstant) {
        AtomicInstant { ns: AtomicU64::new(instant.ns) }
    }

    /// The moment as it stands, read with relaxed ordering.
    pub fn load(&self) -> (r: Instant) {
        Instant { ns: self.ns.load(Ordering::Relaxed) }
    }

    /// Moves the moment to `new` where it still stands at `current`, and
    /// says where it stood: in `Ok` where it was moved, in `Err` where
    /// another had moved it before. What the winner wrote before is visible
    /// to whoever reads the new moment with acquire ordering.
    pub fn compare_exchange(&self, current: Instant, new: Instant) -> (r: Result<
        Instant,
        Instant,
    >)
        ensures
            r is Ok ==> r->Ok_0 == current,
            r is Err ==> r->Err_0 != current,
    {
        match exchange(&self.ns, current.ns, new.ns, Ordering::AcqRel, Ordering::Relaxed) {
            Ok(ns) => Ok(Instant { ns }),
            Err(ns) => Err(Instant { ns }),
        }
    }
}

/// `AtomicU64::compare_exchange` stores `new` where the atomic holds
/// `current`, and returns the value that the atomic held: in `Ok` where it
/// stored, and the value is then `current`; in `Err` where it did not, and
/// the value is then another. It takes no `Release` and no `AcqRel` as the
/// ordering of a failure.
#[verifier::external_body]
fn exchange(
    atomic: &AtomicU64,
    current: u64,
    new: u64,
    success: Ordering,
    failure: Ordering,
) -> (r: Result<u64, u64>)
    requires
        failure != Ordering::Release,
        failure != Ordering::AcqRel,
    ensures
        r is Ok ==> r->Ok_0 == current,
        r is Err ==> r->Err_0 != current,
{
    atomic.compare_exchange(current, new, success, failure)
}

} // verus!
