//! Instants on the UTC time line and the spans between them.
use vstd::prelude::*;

verus! {

pub const NANOS_PER_SECOND: i128 = 1_000_000_000;

/// The first second that a calendar date names, 1 January of the year -262143.
pub const FIRST_SECOND: i64 = -8_334_601_228_800;

/// The last second that a calendar date names, in the year 262142.
pub const LAST_SECOND: i64 = 8_210_266_876_799;

/// A UTC instant, as nanoseconds since the start of 1970.
#[derive(Clone, Copy, Debug, PartialEq, Eq, Structural)]
pub struct Instant {
    pub nanos: i128,
}

impl Instant {
    /// The instant has a calendar date.
    pub open spec fn valid(self) -> bool {
        FIRST_SECOND * NANOS_PER_SECOND <= self.nanos < (LAST_SECOND + 1) * NANOS_PER_SECOND
    }

    /// Whole seconds since the start of 1970, rounded down.
    pub open spec fn seconds(self) -> int {
        self.nanos as int / NANOS_PER_SECOND as int
    }

    /// The instant at a whole second.
    pub fn from_seconds(secs: i64) -> (t: Instant)
        ensures
            t.nanos == secs * NANOS_PER_SECOND,
            t.seconds() == secs,
            FIRST_SECOND <= secs <= LAST_SECOND ==> t.valid(),
    {
        Instant { nanos: secs as i128 * NANOS_PER_SECOND }
    }

    /// Whole seconds since the start of 1970, rounded down.
    pub fn timestamp(self) -> (secs: i64)
        requires
            self.valid(),
        ensures
            secs == self.seconds(),
    {
        let q: i128 = self.nanos / NANOS_PER_SECOND;
        if self.nanos < 0 && self.nanos % NANOS_PER_SECOND != 0 {
            (q - 1) as i64
        } else {
            q as i64
        }
    }

    /// Whether a calendar date names the instant.
    pub fn is_valid(self) -> (b: bool)
        ensures
            b == self.valid(),
    {
        FIRST_SECOND as i128 * NANOS_PER_SECOND <= self.nanos && self.nanos < (LAST_SECOND as i128
            + 1) * NANOS_PER_SECOND
    }
}

/// The whole seconds of an instant are those that have gone by, also before 1970.
pub proof fn seconds_are_rounded_down(t: Instant)
    ensures
        t.seconds() * 1_000_000_000 <= t.nanos < (t.seconds() + 1) * 1_000_000_000,
{
}

} // verus!
