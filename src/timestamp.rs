//! Points in time as nanoseconds since the Unix epoch, and the calendar
//! arithmetic that places the Matroska epoch among them.
use chrono::NaiveDate;

use vstd::prelude::*;

verus! {

/// A point in time, in nanoseconds since 1970-01-01T00:00:00Z.
#[derive(Debug, Clone, Copy, PartialEq, Eq, Structural)]
pub struct UtcTime {
    pub unix_nanos: i128,
}

pub open spec fn is_leap_year(y: int) -> bool {
    (y % 4 == 0 && y % 100 != 0) || y % 400 == 0
}

pub open spec fn days_in_month(y: int, m: int) -> int {
    if m == 2 {
        if is_leap_year(y) {
            29
        } else {
            28
        }
    } else if m == 4 || m == 6 || m == 9 || m == 11 {
        30
    } else {
        31
    }
}

/// The number of days from 1970-01-01 to the proleptic Gregorian date
/// `y-m-d` (negative before it).
pub open spec fn days_from_civil(y: int, m: int, d: int) -> int {
    let y1 = if m <= 2 {
        y - 1
    } else {
        y
    };
    let era = y1 / 400;
    let yoe = y1 - era * 400;
    let mp = (m + 9) % 12;
    let doy = (153 * mp + 2) / 5 + d - 1;
    let doe = yoe * 365 + yoe / 4 - yoe / 100 + doy;
    era * 146097 + doe - 719468
}

/// Relies on chrono's `NaiveDate::from_ymd_opt`, `and_hms_opt`, `and_utc` and
/// `DateTime::timestamp`: the Unix time, in seconds, of midnight UTC that
/// starts a valid calendar date.
#[verifier::external_body]
fn unix_seconds_at_midnight(year: i32, month: u32, day: u32) -> (r: i64)
    requires
        1 <= year <= 9999,
        1 <= month <= 12,
        1 <= day <= days_in_month(year as int, month as int),
    ensures
        r == days_from_civil(year as int, month as int, day as int) * 86400,
{
    let date = NaiveDate::from_ymd_opt(year, month, day).unwrap();
    date.and_hms_opt(0, 0, 0).unwrap().and_utc().timestamp()
}

/// Nanoseconds from the Unix epoch to 2001-01-01T00:00:00Z, the epoch of
/// Matroska dates.
pub open spec fn matroska_epoch_nanos() -> int {
    days_from_civil(2001, 1, 1) * 86400 * 1_000_000_000
}

/// The point in time of a Matroska date: `nanos` nanoseconds after
/// 2001-01-01T00:00:00Z.
pub open spec fn spec_matroska_date(nanos: i64) -> UtcTime {
    UtcTime { unix_nanos: (nanos + matroska_epoch_nanos()) as i128 }
}

/// Converts a Matroska date, nanoseconds after 2001-01-01T00:00:00Z, to Unix
/// time.
pub fn matroska_date(nanos: i64) -> (r: UtcTime)
    ensures
        r == spec_matroska_date(nanos),
{
    let secs = unix_seconds_at_midnight(2001, 1, 1);
    assert(days_from_civil(2001, 1, 1) == 11323);
    UtcTime { unix_nanos: nanos as i128 + secs as i128 * 1_000_000_000 }
}

} // verus!
