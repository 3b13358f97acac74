//! Wall-clock readings, through the `time` crate.
//!
//! Every operation that stamps attributes or log lines takes the reading as
//! a plain value, so the rest of the library is independent of the machine's
//! clock; these two functions are the only place the clock is read.

use vstd::prelude::*;

verus! {

/// A local wall-clock time of day, as broken-down hour, minute and second.
#[derive(Debug, Clone, Copy, PartialEq, Eq, Structural)]
pub struct TimeOfDay {
    pub hour: u8,
    pub min: u8,
    pub sec: u8,
}

/// The ranges a broken-down time's fields lie in; a leap second allows 60.
pub open spec fn time_of_day_wf(t: TimeOfDay) -> bool {
    t.hour <= 23 && t.min <= 59 && t.sec <= 60
}

/// Relies on time::now: the local broken-down time, whose hour, minute and
/// second fields lie in the ranges its type documents ([0, 23], [0, 59] and,
/// with a leap second, [0, 60]).
#[verifier::external_body]
pub fn now_time_of_day() -> (t: TimeOfDay)
    ensures
        time_of_day_wf(t),
{
    let tm = time::now();
    TimeOfDay { hour: tm.tm_hour as u8, min: tm.tm_min as u8, sec: tm.tm_sec as u8 }
}

/// Relies on time::get_time: the system clock's seconds since the epoch;
/// nothing is promised of the reading itself.
#[verifier::external_body]
pub fn now_seconds() -> i64 {
    time::get_time().sec
}

} // verus!
