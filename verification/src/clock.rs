//! Points on the monotonic clock and the distances between them.
//!
//! Both are counted in nanoseconds. The counter is wide enough for every
//! moment that the operating system's clock can name, so adding the length of
//! an event to its start stays inside it.
use vstd::prelude::*;

verus! {

/// A moment, in nanoseconds since the origin of the monotonic clock.
pub type Instant = u128;

/// A length of time in nanoseconds.
pub type Duration = u128;

/// Nanoseconds in a millisecond.
pub const NANOS_PER_MILLI: u128 = 1_000_000;

/// Nanoseconds in a second.
pub const NANOS_PER_SEC: u128 = 1_000_000_000;

/// The moment `ns` nanoseconds after `t`; the end of the counter where it
/// does not reach that far.
pub open spec fn instant_after(t: Instant, ns: u64) -> Instant {
    if t + ns <= u128::MAX {
        (t + ns) as u128
    } else {
        u128::MAX
    }
}

/// The time from `earlier` to `later`, zero where `later` comes first.
pub open spec fn time_between(earlier: Instant, later: Instant) -> Duration {
    if later >= earlier {
        (later - earlier) as u128
    } else {
        0
    }
}

/// Adds the length of an event to its start.
pub fn add_nanos(t: Instant, ns: u64) -> (r: Instant)
    ensures
        r == instant_after(t, ns),
{
    if t <= u128::MAX - ns as u128 {
        t + ns as u128
    } else {
        u128::MAX
    }
}

/// Time passed from `earlier` to `later`.
pub fn elapsed(earlier: Instant, later: Instant) -> (r: Duration)
    ensures
        r == time_between(earlier, later),
{
    if later >= earlier {
        later - earlier
    } else {
        0
    }
}

/// The earlier of two moments.
pub open spec fn earlier_of(a: Instant, b: Instant) -> Instant {
    if a <= b {
        a
    } else {
        b
    }
}

/// The later of two moments.
pub open spec fn later_of(a: Instant, b: Instant) -> Instant {
    if a >= b {
        a
    } else {
        b
    }
}

pub fn min_instant(a: Instant, b: Instant) -> (r: Instant)
    ensures
        r == earlier_of(a, b),
{
    if a <= b {
        a
    } else {
        b
    }
}

pub fn max_instant(a: Instant, b: Instant) -> (r: Instant)
    ensures
        r == later_of(a, b),
{
    if a >= b {
        a
    } else {
        b
    }
}

/// A moment that is known on the monotonic clock and on the calendar.
#[derive(Clone, Copy, Debug)]
pub struct TimeBase {
    pub init_instant: Instant,
    /// The same moment in nanoseconds since the Unix epoch.
    pub init_timestamp: u128,
}

impl TimeBase {
    /// Calendar time of `t`, in nanoseconds since the Unix epoch. Moments
    /// before the base map to the base itself.
    pub open spec fn timestamp(self, t: Instant) -> u128 {
        if self.init_timestamp + time_between(self.init_instant, t) <= u128::MAX {
            (self.init_timestamp + time_between(self.init_instant, t)) as u128
        } else {
            u128::MAX
        }
    }

    /// Calendar time of `t` in whole microseconds, as the live records hold it.
    pub open spec fn micros(self, t: Instant) -> i64 {
        (self.timestamp(t) / 1000) as i64
    }

    pub fn instant_to_timestamp(&self, t: Instant) -> (r: u128)
        ensures
            r == self.timestamp(t),
    {
        let d: u128 = elapsed(self.init_instant, t);
        if self.init_timestamp <= u128::MAX - d {
            self.init_timestamp + d
        } else {
            u128::MAX
        }
    }

    pub fn to_us(&self, t: Instant) -> (r: i64)
        ensures
            r == self.micros(t),
    {
        (self.instant_to_timestamp(t) / 1000) as i64
    }
}

// ----------------------------------------------------------------------- laws

/// The time between two moments leads from the first to the second, is none
/// backwards, and adds up over a moment in between.
pub proof fn law_times_add_up(a: Instant, b: Instant, c: Instant)
    requires
        a <= b <= c,
    ensures
        a + time_between(a, b) == b,
        time_between(b, a) == 0,
        time_between(a, c) == time_between(a, b) + time_between(b, c),
{
}

/// A moment that lies some time after another is that far away from it.
pub proof fn law_events_take_their_time(t: Instant, ns: u64)
    requires
        t + ns <= u128::MAX,
    ensures
        instant_after(t, ns) == t + ns,
        time_between(t, instant_after(t, ns)) == ns,
{
}

/// Of two moments the earlier is not after either, the later not before either,
/// and both are one of the two.
pub proof fn law_earlier_and_later(a: Instant, b: Instant)
    ensures
        earlier_of(a, b) <= a && earlier_of(a, b) <= b,
        earlier_of(a, b) == a || earlier_of(a, b) == b,
        later_of(a, b) >= a && later_of(a, b) >= b,
        later_of(a, b) == a || later_of(a, b) == b,
{
}

/// Calendar times are as far apart as the moments that they stand for, and are
/// told in whole microseconds.
pub proof fn law_calendar_keeps_distances(base: TimeBase, a: Instant, b: Instant)
    requires
        base.init_instant <= a <= b,
        base.init_timestamp + (b - base.init_instant) <= i64::MAX,
    ensures
        base.timestamp(base.init_instant) == base.init_timestamp,
        base.timestamp(b) - base.timestamp(a) == b - a,
        base.micros(a) == (base.init_timestamp + (a - base.init_instant)) / 1000,
        base.micros(a) <= base.micros(b),
{
}

/// A moment before the base is told as the base.
pub proof fn law_calendar_starts_at_its_base(base: TimeBase, t: Instant)
    requires
        t <= base.init_instant,
    ensures
        base.timestamp(t) == base.init_timestamp,
{
}

} // verus!
