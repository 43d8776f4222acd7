//! The process clock: the only place the library reads ambient state.

use vstd::prelude::*;
use crate::datetime::{Date, Timestamp, spec_days_in_month, days_in_month};
use chrono::{Datelike, Timelike};

verus! {

/// The fields of the local wall-clock time, as plain integers.
#[derive(Clone, Copy, PartialEq, Eq, Structural, Debug)]
pub struct ClockReading {
    pub year: i32,
    pub month: u8,
    pub day: u8,
    pub hour: u8,
    pub minute: u8,
    pub second: u8,
}

/// A reading whose fields name a valid timestamp: a four-digit year, a real
/// calendar date, and an in-range time of day.
pub open spec fn spec_reading_in_range(c: ClockReading) -> bool {
    &&& 0 <= c.year <= 9999
    &&& 1 <= c.month <= 12
    &&& 1 <= c.day
    &&& c.day as int <= spec_days_in_month(c.year as int, c.month as int)
    &&& c.hour <= 23
    &&& c.minute <= 59
    &&& c.second <= 59
}

/// The timestamp a reading names; meaningful when the reading is in range.
pub open spec fn spec_reading_ts(c: ClockReading) -> Timestamp {
    Timestamp {
        date: Date { year: c.year as u16, month: c.month, day: c.day },
        hour: c.hour,
        minute: c.minute,
        second: c.second,
    }
}

/// Relies on chrono's `Local::now` and its `Datelike`/`Timelike` accessors,
/// whose documentation gives the ranges: month 1 to 12, day 1 to 31, hour 0 to
/// 23, minute and second 0 to 59. The value itself depends on the clock, so
/// nothing more is promised.
#[verifier::external_body]
fn read_clock() -> (r: ClockReading)
    ensures
        1 <= r.month <= 12,
        1 <= r.day <= 31,
        r.hour <= 23,
        r.minute <= 59,
        r.second <= 59,
{
    let now = chrono::Local::now().naive_local();
    ClockReading {
        year: now.year(),
        month: now.month() as u8,
        day: now.day() as u8,
        hour: now.hour() as u8,
        minute: now.minute() as u8,
        second: now.second() as u8,
    }
}

/// The timestamp a clock reading names: `Some` exactly when every field is in
/// range and the day exists in its month, and then each timestamp field is
/// the reading's field.
pub fn timestamp_of_reading(c: &ClockReading) -> (r: Option<Timestamp>)
    ensures
        r is Some <==> spec_reading_in_range(*c),
        r is Some ==> r.unwrap() == spec_reading_ts(*c) && r.unwrap().wf(),
{
    if c.year < 0 || c.year > 9999 {
        return None;
    }
    let year = c.year as u16;
    if !(1 <= c.month && c.month <= 12) {
        return None;
    }
    if c.day < 1 || c.day > days_in_month(year, c.month) {
        return None;
    }
    if c.hour > 23 || c.minute > 59 || c.second > 59 {
        return None;
    }
    Some(
        Timestamp {
            date: Date { year, month: c.month, day: c.day },
            hour: c.hour,
            minute: c.minute,
            second: c.second,
        },
    )
}

/// The current local time as a valid timestamp, or `None` should the clock
/// report a year outside the four-digit range or a day its month lacks.
pub fn now_timestamp() -> (r: Option<Timestamp>)
    ensures
        r is Some ==> r.unwrap().wf(),
{
    let c = read_clock();
    timestamp_of_reading(&c)
}

/// The current local calendar date, or `None` should the clock be out of
/// range.
pub fn today() -> (r: Option<Date>)
    ensures
        r is Some ==> r.unwrap().wf(),
{
    match now_timestamp() {
        Some(t) => Some(t.date),
        None => None,
    }
}

} // verus!
