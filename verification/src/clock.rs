//! The wall clock and the machine's time zone, behind trusted wrappers.

use vstd::prelude::*;

use chrono::{Datelike, Timelike};

use crate::time::DateTimeParts;

verus! {

/// Reads the wall clock. Relies on `chrono::Utc::now` and
/// `chrono::DateTime::timestamp_millis`: the result is the current UTC
/// time in milliseconds since the Unix epoch. Nothing can be promised
/// about a clock reading, so callers clamp it into the range they need.
#[verifier::external_body]
pub fn now_utc_millis() -> i64 {
    chrono::Utc::now().timestamp_millis()
}

/// Splits a UTC instant into the machine's local wall clock fields.
/// Relies on `chrono::DateTime::from_timestamp_millis` (defined for every
/// representable instant), `with_timezone` with `chrono::Local`, and the
/// `Datelike` / `Timelike` accessors, whose documentation bounds the
/// fields: month 1 to 12, day 1 to 31, hour below 24, minute below 60,
/// second below 60 (a leap second is carried in the subsecond part,
/// which can therefore reach 1999 milliseconds). The year stays within a
/// day of the UTC year, since no time zone is offset by more. What local
/// time an instant maps to depends on the machine, so nothing more is
/// promised.
#[verifier::external_body]
pub fn local_date_time(utc_ms: i64) -> (r: DateTimeParts)
    requires
        0 <= utc_ms < 253402300800000,
    ensures
        crate::time::local_reading(r),
{
    match chrono::DateTime::from_timestamp_millis(utc_ms) {
        Some(utc) => {
            let t = utc.with_timezone(&chrono::Local);
            DateTimeParts {
                year: t.year() as u64, month: t.month() as u64, day: t.day() as u64,
                hour: t.hour() as u64, minute: t.minute() as u64, second: t.second() as u64,
                millisecond: t.timestamp_subsec_millis() as u64,
            }
        },
        None => DateTimeParts {
            year: 1970, month: 1, day: 1, hour: 0, minute: 0, second: 0, millisecond: 0,
        },
    }
}

} // verus!
