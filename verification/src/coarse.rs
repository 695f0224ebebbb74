//! Moments and spans of time to the second, each a `u32` counter.
//!
//! The clock is not read here: a reading comes from outside and is given
//! to `from_secs`.

use vstd::prelude::*;
use vstd::std_specs::ops::{AddSpecImpl, SubSpecImpl};

verus! {

/// A span of time in whole seconds.
#[derive(Clone, Copy, Debug, Default, Hash, PartialEq, Eq, PartialOrd, Ord, Structural)]
pub struct Duration {
    secs: u32,
}

impl View for Duration {
    type V = nat;

    closed spec fn view(&self) -> nat {
        self.secs as nat
    }
}

impl Duration {
    /// The span of `secs` seconds, as a value of specifications.
    pub closed spec fn spec_from_secs(secs: u32) -> Duration {
        Duration { secs }
    }

    /// The span that `from_secs` makes is the number of seconds given.
    pub broadcast proof fn lemma_spec_from_secs(secs: u32)
        ensures
            (#[trigger] Duration::spec_from_secs(secs))@ == secs,
    {
    }

    /// Two spans of one length are the same span.
    pub proof fn lemma_view_injective(self, other: Duration)
        requires
            self@ == other@,
        ensures
            self == other,
    {
    }

    /// The span of `secs` seconds.
    pub fn from_secs(secs: u32) -> (r: Duration)
        ensures
            r@ == secs,
            r == Duration::spec_from_secs(secs),
    {
        Duration { secs }
    }

    /// The span in seconds.
    pub fn as_secs(&self) -> (r: u32)
        ensures
            r == self@,
    {
        self.secs
    }
}

/// A moment on the monotonic clock, as the number of seconds that the clock
/// had counted.
#[derive(Clone, Copy, Debug, Default, Hash, PartialEq, Eq, PartialOrd, Ord, Structural)]
pub struct Instant {
    secs: u32,
}

impl View for Instant {
    type V = nat;

    closed spec fn view(&self) -> nat {
        self.secs as nat
    }
}

impl Instant {
    /// The moment of the reading `secs`, as a value of specifications.
    pub closed spec fn spec_from_secs(secs: u32) -> Instant {
        Instant { secs }
    }

    /// The moment that `from_secs` makes is the reading given.
    pub broadcast proof fn lemma_spec_from_secs(secs: u32)
        ensures
            (#[trigger] Instant::spec_from_secs(secs))@ == secs,
    {
    }

    /// Two moments of one reading are the same moment.
    pub proof fn lemma_view_injective(self, other: Instant)
        requires
            self@ == other@,
        ensures
            self == other,
    {
    }

    /// The moment at which the clock read `secs` seconds.
    pub fn from_secs(secs: u32) -> (r: Instant)
        ensures
            r@ == secs,
            r == Instant::spec_from_secs(secs),
    {
        Instant { secs }
    }

    /// The reading of the clock at this moment, in seconds.
    pub fn as_secs(&self) -> (r: u32)
        ensures
            r == self@,
    {
        self.secs
    }

    /// The time from this moment until `now`, which is not before it.
    pub fn elapsed(&self, now: Instant) -> (r: Duration)
        requires
            self@ <= now@,
        ensures
            r@ == now@ - self@,
    {
        Duration { secs: now.secs - self.secs }
    }

    /// The time from `earlier`, which is not after this moment, until this
    /// moment.
    pub fn duration_since(&self, earlier: Instant) -> (r: Duration)
        requires
            earlier@ <= self@,
        ensures
            r@ == self@ - earlier@,
    {
        Duration { secs: self.secs - earlier.secs }
    }

    /// The time from `earlier` until this moment, or `None` where `earlier`
    /// is the later of the two.
    pub fn checked_duration_since(&self, earlier: Instant) -> (r: Option<Duration>)
        ensures
            earlier@ <= self@ <==> r is Some,
            r is Some ==> r->Some_0@ == self@ - earlier@,
    {
        if earlier.secs <= self.secs {
            Some(Duration { secs: self.secs - earlier.secs })
        } else {
            None
        }
    }

    /// The moment `duration` before this one, or `None` where the clock
    /// cannot have read it.
    pub fn checked_sub(&self, duration: Duration) -> (r: Option<Instant>)
        ensures
            duration@ <= self@ <==> r is Some,
            r is Some ==> r->Some_0@ == self@ - duration@,
    {
        if duration.secs <= self.secs {
            Some(Instant { secs: self.secs - duration.secs })
        } else {
            None
        }
    }

    /// The moment `duration` after this one, or `None` where the clock
    /// cannot read it.
    pub fn checked_add(&self, duration: Duration) -> (r: Option<Instant>)
        ensures
            self@ + duration@ <= u32::MAX <==> r is Some,
            r is Some ==> r->Some_0@ == self@ + duration@,
    {
        if duration.secs <= u32::MAX - self.secs {
            Some(Instant { secs: self.secs + duration.secs })
        } else {
            None
        }
    }
}

impl core::ops::Add<Duration> for Instant {
    type Output = Instant;

    fn add(self, rhs: Duration) -> (r: Instant) {
        Instant { secs: self.secs + rhs.secs }
    }
}

impl AddSpecImpl<Duration> for Instant {
    open spec fn obeys_add_spec() -> bool {
        true
    }

    open spec fn add_req(self, rhs: Duration) -> bool {
        self@ + rhs@ <= u32::MAX
    }

    open spec fn add_spec(self, rhs: Duration) -> Instant {
        Instant::spec_from_secs((self@ + rhs@) as u32)
    }
}

impl core::ops::Sub<Duration> for Instant {
    type Output = Instant;

    fn sub(self, rhs: Duration) -> (r: Instant) {
        Instant { secs: self.secs - rhs.secs }
    }
}

impl SubSpecImpl<Duration> for Instant {
    open spec fn obeys_sub_spec() -> bool {
        true
    }

    open spec fn sub_req(self, rhs: Duration) -> bool {
        rhs@ <= self@
    }

    open spec fn sub_spec(self, rhs: Duration) -> Instant {
        Instant::spec_from_secs((self@ - rhs@) as u32)
    }
}

impl core::ops::Sub<Instant> for Instant {
    type Output = Duration;

    fn sub(self, rhs: Instant) -> (r: Duration) {
        Duration { secs: self.secs - rhs.secs }
    }
}

impl SubSpecImpl<Instant> for Instant {
    open spec fn obeys_sub_spec() -> bool {
        true
    }

    open spec fn sub_req(self, rhs: Instant) -> bool {
        rhs@ <= self@
    }

    open spec fn sub_spec(self, rhs: Instant) -> Duration {
        Duration::spec_from_secs((self@ - rhs@) as u32)
    }
}

/// A moment on the wall clock, as the number of seconds since the Unix epoch.
#[derive(Clone, Copy, Debug, Default, Hash, PartialEq, Eq, PartialOrd, Ord, Structural)]
pub struct UnixInstant {
    secs: u32,
}

impl View for UnixInstant {
    type V = nat;

    closed spec fn view(&self) -> nat {
        self.secs as nat
    }
}

impl UnixInstant {
    /// The moment from which the wall clock counts.
    pub fn epoch() -> (r: UnixInstant)
        ensures
            r@ == 0,
    {
        UnixInstant { secs: 0 }
    }

    /// The moment of the reading `secs`, as a value of specifications.
    pub closed spec fn spec_from_secs(secs: u32) -> UnixInstant {
        UnixInstant { secs }
    }

    /// The moment that `from_secs` makes is the reading given.
    pub broadcast proof fn lemma_spec_from_secs(secs: u32)
        ensures
            (#[trigger] UnixInstant::spec_from_secs(secs))@ == secs,
    {
    }

    /// Two moments of one reading are the same moment.
    pub proof fn lemma_view_injective(self, other: UnixInstant)
        requires
            self@ == other@,
        ensures
            self == other,
    {
    }

    /// The moment at which the clock read `secs` seconds.
    pub fn from_secs(secs: u32) -> (r: UnixInstant)
        ensures
            r@ == secs,
            r == UnixInstant::spec_from_secs(secs),
    {
        UnixInstant { secs }
    }

    /// The reading of the clock at this moment, in seconds.
    pub fn as_secs(&self) -> (r: u32)
        ensures
            r == self@,
    {
        self.secs
    }

    /// The time from this moment until `now`, which is not before it.
    pub fn elapsed(&self, now: UnixInstant) -> (r: Duration)
        requires
            self@ <= now@,
        ensures
            r@ == now@ - self@,
    {
        Duration { secs: now.secs - self.secs }
    }

    /// The time from `earlier`, which is not after this moment, until this
    /// moment.
    pub fn duration_since(&self, earlier: UnixInstant) -> (r: Duration)
        requires
            earlier@ <= self@,
        ensures
            r@ == self@ - earlier@,
    {
        Duration { secs: self.secs - earlier.secs }
    }

    /// The time from `earlier` until this moment, or `None` where `earlier`
    /// is the later of the two.
    pub fn checked_duration_since(&self, earlier: UnixInstant) -> (r: Option<Duration>)
        ensures
            earlier@ <= self@ <==> r is Some,
            r is Some ==> r->Some_0@ == self@ - earlier@,
    {
        if earlier.secs <= self.secs {
            Some(Duration { secs: self.secs - earlier.secs })
        } else {
            None
        }
    }

    /// The moment `duration` before this one, or `None` where the clock
    /// cannot have read it.
    pub fn checked_sub(&self, duration: Duration) -> (r: Option<UnixInstant>)
        ensures
            duration@ <= self@ <==> r is Some,
            r is Some ==> r->Some_0@ == self@ - duration@,
    {
        if duration.secs <= self.secs {
            Some(UnixInstant { secs: self.secs - duration.secs })
        } else {
            None
        }
    }

    /// The moment `duration` after this one, or `None` where the clock
    /// cannot read it.
    pub fn checked_add(&self, duration: Duration) -> (r: Option<UnixInstant>)
        ensures
            self@ + duration@ <= u32::MAX <==> r is Some,
            r is Some ==> r->Some_0@ == self@ + duration@,
    {
        if duration.secs <= u32::MAX - self.secs {
            Some(UnixInstant { secs: self.secs + duration.secs })
        } else {
            None
        }
    }
}

impl core::ops::Add<Duration> for UnixInstant {
    type Output = UnixInstant;

    fn add(self, rhs: Duration) -> (r: UnixInstant) {
        UnixInstant { secs: self.secs + rhs.secs }
    }
}

impl AddSpecImpl<Duration> for UnixInstant {
    open spec fn obeys_add_spec() -> bool {
        true
    }

    open spec fn add_req(self, rhs: Duration) -> bool {
        self@ + rhs@ <= u32::MAX
    }

    open spec fn add_spec(self, rhs: Duration) -> UnixInstant {
        UnixInstant::spec_from_secs((self@ + rhs@) as u32)
    }
}

impl core::ops::Sub<Duration> for UnixInstant {
    type Output = UnixInstant;

    fn sub(self, rhs: Duration) -> (r: UnixInstant) {
        UnixInstant { secs: self.secs - rhs.secs }
    }
}

impl SubSpecImpl<Duration> for UnixInstant {
    open spec fn obeys_sub_spec() -> bool {
        true
    }

    open spec fn sub_req(self, rhs: Duration) -> bool {
        rhs@ <= self@
    }

    open spec fn sub_spec(self, rhs: Duration) -> UnixInstant {
        UnixInstant::spec_from_secs((self@ - rhs@) as u32)
    }
}

impl core::ops::Sub<UnixInstant> for UnixInstant {
    type Output = Duration;

    fn sub(self, rhs: UnixInstant) -> (r: Duration) {
        Duration { secs: self.secs - rhs.secs }
    }
}

impl SubSpecImpl<UnixInstant> for UnixInstant {
    open spec fn obeys_sub_spec() -> bool {
        true
    }

    open spec fn sub_req(self, rhs: UnixInstant) -> bool {
        rhs@ <= self@
    }

    open spec fn sub_spec(self, rhs: UnixInstant) -> Duration {
        Duration::spec_from_secs((self@ - rhs@) as u32)
    }
}

} // verus!
