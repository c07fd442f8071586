//! Points in time and the spans between them.

use std::ops::Add;
use vstd::prelude::*;

verus! {

/// A span of time.
#[derive(Clone, Copy, Debug, PartialEq, Eq, Structural)]
pub struct Duration {
    pub nanos: u128,
}

/// A point on a clock that never runs backwards, counted from that clock's
/// own origin.
#[derive(Clone, Copy, Debug, PartialEq, Eq, Structural)]
pub struct Instant {
    pub nanos: u128,
}

impl Duration {
    /// The span of `n` seconds.
    pub open spec fn secs(n: int) -> Duration {
        Duration { nanos: (n * 1_000_000_000) as u128 }
    }

    pub fn from_secs(n: u64) -> (r: Duration)
        ensures
            r == Duration::secs(n as int),
            r.nanos == n * 1_000_000_000,
    {
        Duration { nanos: n as u128 * 1_000_000_000 }
    }

    /// The whole seconds of the span, as far as they can be counted.
    pub open spec fn whole_secs(self) -> u64 {
        if self.nanos / 1_000_000_000 <= u64::MAX {
            (self.nanos / 1_000_000_000) as u64
        } else {
            u64::MAX
        }
    }

    pub fn as_secs(self) -> (r: u64)
        ensures
            r == self.whole_secs(),
    {
        let n: u128 = self.nanos / 1_000_000_000;
        if n <= u64::MAX as u128 {
            n as u64
        } else {
            u64::MAX
        }
    }

    pub fn from_millis(n: u64) -> (r: Duration)
        ensures
            r.nanos == n * 1_000_000,
    {
        Duration { nanos: n as u128 * 1_000_000 }
    }
}

impl Instant {
    /// Whether the clock can still tell the time `d` after this point.
    pub open spec fn reaches(self, d: Duration) -> bool {
        self.nanos + d.nanos <= u128::MAX
    }

    /// The point `d` after this one.
    pub open spec fn plus(self, d: Duration) -> Instant {
        Instant { nanos: (self.nanos + d.nanos) as u128 }
    }

    /// The time that has passed since `earlier`; none where `earlier` is later.
    pub open spec fn since(self, earlier: Instant) -> Duration {
        if earlier.nanos <= self.nanos {
            Duration { nanos: (self.nanos - earlier.nanos) as u128 }
        } else {
            Duration { nanos: 0 }
        }
    }

    pub fn duration_since(self, earlier: Instant) -> (r: Duration)
        ensures
            r == self.since(earlier),
    {
        if earlier.nanos <= self.nanos {
            Duration { nanos: self.nanos - earlier.nanos }
        } else {
            Duration { nanos: 0 }
        }
    }

    /// The earlier of two points.
    pub open spec fn earlier(self, other: Instant) -> Instant {
        if self.nanos <= other.nanos {
            self
        } else {
            other
        }
    }

    pub fn min(self, other: Instant) -> (r: Instant)
        ensures
            r == self.earlier(other),
    {
        if self.nanos <= other.nanos {
            self
        } else {
            other
        }
    }
}

impl Add<Duration> for Instant {
    type Output = Instant;

    fn add(self, d: Duration) -> (r: Instant) {
        Instant { nanos: self.nanos + d.nanos }
    }
}

impl vstd::std_specs::ops::AddSpecImpl<Duration> for Instant {
    open spec fn obeys_add_spec() -> bool {
        true
    }

    open spec fn add_req(self, d: Duration) -> bool {
        self.reaches(d)
    }

    open spec fn add_spec(self, d: Duration) -> Instant {
        self.plus(d)
    }
}

/// A second has a thousand million nanoseconds; the time from one point to a later one
/// is what lies between them, and to an earlier one it is none.
pub proof fn law_spans_of_time(a: Instant, b: Instant, n: u32)
    ensures
        Duration::secs(n as int).nanos == n * 1_000_000_000,
        Duration::secs(n as int).whole_secs() == n,
        a.nanos <= b.nanos ==> b.since(a).nanos == b.nanos - a.nanos,
        a.nanos > b.nanos ==> b.since(a).nanos == 0,
        a.nanos <= b.nanos ==> a.earlier(b) == a && b.earlier(a).nanos == a.nanos,
        a.reaches(Duration::secs(n as int)) ==> a.plus(Duration::secs(n as int)).nanos == a.nanos + n
            * 1_000_000_000,
{
}

} // verus!
