//! Times as they are printed: on Brisbane's clock for the report, in UTC for messages.
use vstd::prelude::*;
use crate::time::{Instant, FIRST_SECOND, LAST_SECOND, NANOS_PER_SECOND};

verus! {

/// Brisbane's offset from UTC in seconds: ten hours, the whole year.
pub const BRISBANE_OFFSET_SECS: i32 = 36_000;

/// How a time is printed: date, time of day and offset.
pub const CLOCK_FORMAT: &'static str = "%Y-%m-%d %H:%M:%S %:z";

/// An instant in print, by its whole seconds, on a clock this many seconds ahead of UTC, in a
/// format.
pub uninterp spec fn clock_text(seconds: int, offset_seconds: int, format: Seq<char>) -> Seq<char>;

/// The date and the time of day at an instant in UTC, by its whole seconds and the nanoseconds
/// beyond them.
pub uninterp spec fn utc_text(seconds: int, nanos: int) -> Seq<char>;

/// `chrono`'s `DateTime::from_timestamp`, `with_timezone` and `format`: the instant at a fixed
/// offset, printed in a format. None exactly where no calendar date names the seconds, or the
/// offset is a day or more. A format that `chrono` cannot read would panic, so there is but the
/// one. How the calendar counts is not said.
#[verifier::external_body]
fn format_at_offset(seconds: i64, offset_seconds: i32, format: &str) -> (s: Option<String>)
    requires
        format@ == CLOCK_FORMAT@,
    ensures
        s is Some <==> (FIRST_SECOND <= seconds <= LAST_SECOND && -86_400 < offset_seconds < 86_400),
        s matches Some(text) ==> text@ == clock_text(
            seconds as int,
            offset_seconds as int,
            format@,
        ),
{
    let offset = chrono::FixedOffset::east_opt(offset_seconds)?;
    let at = chrono::DateTime::from_timestamp(seconds, 0)?;
    Some(at.with_timezone(&offset).format(format).to_string())
}

/// `chrono`'s `DateTime::from_timestamp` and the `Display` of its result. It is given less than a
/// second of nanoseconds, and is then none exactly where no calendar date names the seconds. How
/// the calendar counts is not said.
#[verifier::external_body]
fn format_utc(seconds: i64, nanos: u32) -> (s: Option<String>)
    requires
        nanos < 1_000_000_000,
    ensures
        s is Some <==> FIRST_SECOND <= seconds <= LAST_SECOND,
        s matches Some(text) ==> text@ == utc_text(seconds as int, nanos as int),
{
    Some(chrono::DateTime::from_timestamp(seconds, nanos)?.to_string())
}

/// An instant on Brisbane's clock, with the offset behind it.
pub fn bne(dt: Instant) -> (s: String)
    requires
        dt.valid(),
    ensures
        s@ == clock_text(dt.seconds(), BRISBANE_OFFSET_SECS as int, CLOCK_FORMAT@),
{
    match format_at_offset(dt.timestamp(), BRISBANE_OFFSET_SECS, CLOCK_FORMAT) {
        Some(s) => s,
        None => String::new(),
    }
}

/// An instant in UTC.
pub fn utc(dt: Instant) -> (s: String)
    requires
        dt.valid(),
    ensures
        s@ == utc_text(dt.seconds(), dt.nanos as int % NANOS_PER_SECOND as int),
{
    let seconds: i64 = dt.timestamp();
    let rest: i128 = dt.nanos - seconds as i128 * NANOS_PER_SECOND;
    match format_utc(seconds, rest as u32) {
        Some(s) => s,
        None => String::new(),
    }
}

} // verus!
