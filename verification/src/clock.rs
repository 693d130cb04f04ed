//! Time as the decisions see it: nanoseconds on one monotonic clock.

use vstd::prelude::*;

verus! {

/// A point in time.
#[derive(Clone, Copy, Debug, PartialEq, Eq, Structural)]
pub struct Instant {
    pub nanos: u64,
}

/// A span of time.
#[derive(Clone, Copy, Debug, PartialEq, Eq, Structural)]
pub struct Duration {
    pub nanos: u128,
}

pub const NANOS_PER_MS: u128 = 1_000_000;

pub const NANOS_PER_SEC: u128 = 1_000_000_000;

impl Duration {
    pub fn from_millis(ms: u64) -> (d: Duration)
        ensures
            d.nanos == ms * NANOS_PER_MS,
    {
        Duration { nanos: (ms as u128) * NANOS_PER_MS }
    }

    pub fn from_secs(secs: u64) -> (d: Duration)
        ensures
            d.nanos == secs * NANOS_PER_SEC,
    {
        Duration { nanos: (secs as u128) * NANOS_PER_SEC }
    }

    /// The whole seconds of the span.
    pub open spec fn secs(self) -> int {
        self.nanos as int / 1_000_000_000
    }

    /// The whole milliseconds of the span, at most `u64::MAX`.
    pub open spec fn millis(self) -> int {
        let ms = self.nanos as int / 1_000_000;
        if ms <= u64::MAX {
            ms
        } else {
            u64::MAX as int
        }
    }

    /// The whole milliseconds of the span, at most `u64::MAX`.
    pub fn as_millis(self) -> (ms: u64)
        ensures
            ms == self.millis(),
    {
        let whole: u128 = self.nanos / NANOS_PER_MS;
        if whole <= u64::MAX as u128 {
            whole as u64
        } else {
            u64::MAX
        }
    }
}

impl Instant {
    /// How long after `earlier` this is, in nanoseconds; zero when it is not after it.
    pub open spec fn after(self, earlier: Instant) -> int {
        if self.nanos >= earlier.nanos {
            self.nanos - earlier.nanos
        } else {
            0
        }
    }

    /// When `ms` milliseconds have passed, in nanoseconds on the same clock.
    pub open spec fn due(self, ms: int) -> int {
        self.nanos + ms * 1_000_000
    }

    /// How long after `earlier` this is; zero when it is not after it.
    pub fn since(self, earlier: Instant) -> (d: Duration)
        ensures
            d.nanos == self.after(earlier),
    {
        if self.nanos >= earlier.nanos {
            Duration { nanos: (self.nanos - earlier.nanos) as u128 }
        } else {
            Duration { nanos: 0 }
        }
    }

    /// When `ms` milliseconds have passed, in nanoseconds on the same clock.
    pub fn due_after_ms(self, ms: u64) -> (t: u128)
        ensures
            t == self.due(ms as int),
            t <= u64::MAX + u64::MAX * NANOS_PER_MS,
    {
        (self.nanos as u128) + (ms as u128) * NANOS_PER_MS
    }
}

/// A point that is not after another is no time after it; otherwise the two are as far apart as their
/// readings, and a deadline is that many milliseconds on. Spans keep their whole milliseconds.
pub proof fn time_is_counted_in_nanoseconds(a: Instant, b: Instant, ms: int, d: Duration)
    ensures
        a.nanos <= b.nanos ==> b.after(a) == b.nanos - a.nanos && a.after(b) == 0,
        a.due(ms) - a.nanos == ms * 1_000_000,
        d.nanos < 0xFFFF_FFFF_FFFF_FFFF * 1_000_000 ==> d.millis() * 1_000_000 <= d.nanos
            < d.millis() * 1_000_000 + 1_000_000,
        0 <= d.millis() <= u64::MAX,
        d.nanos >= 0xFFFF_FFFF_FFFF_FFFF * 1_000_000 ==> d.millis() == u64::MAX,
{
}

} // verus!
