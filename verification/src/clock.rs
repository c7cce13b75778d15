//! Civil-calendar arithmetic and the two clock calls.
//!
//! A dataset's creation time is a proleptic-Gregorian date and hour;
//! its Unix timestamp is specified by the classical days-from-civil
//! formula and computed by chrono behind a trusted wrapper.

use vstd::prelude::*;

verus! {

/// Whether a year is a leap year of the proleptic Gregorian calendar.
pub open spec fn is_leap_spec(y: int) -> bool {
    (y % 4 == 0 && y % 100 != 0) || y % 400 == 0
}

/// Days in a month.
pub open spec fn days_in_month_spec(y: int, m: int) -> int
    recommends
        1 <= m <= 12,
{
    if m == 1 || m == 3 || m == 5 || m == 7 || m == 8 || m == 10 || m == 12 {
        31
    } else if m == 4 || m == 6 || m == 9 || m == 11 {
        30
    } else if is_leap_spec(y) {
        29
    } else {
        28
    }
}

/// Days in a month.
pub fn days_in_month(y: i64, m: i64) -> (r: i64)
    requires
        1 <= m <= 12,
    ensures
        r == days_in_month_spec(y as int, m as int),
{
    if m == 1 || m == 3 || m == 5 || m == 7 || m == 8 || m == 10 || m == 12 {
        31
    } else if m == 4 || m == 6 || m == 9 || m == 11 {
        30
    } else {
        let leap = (crate::arith::emod(y, 4) == 0 && crate::arith::emod(y, 100) != 0)
            || crate::arith::emod(y, 400) == 0;
        if leap {
            29
        } else {
            28
        }
    }
}

/// Days since 1970-01-01 of a proleptic-Gregorian civil date: the
/// classical days-from-civil formula, with flooring division.
pub open spec fn civil_days_spec(y: int, m: int, d: int) -> int
    recommends
        1 <= m <= 12,
        1 <= d <= days_in_month_spec(y, m),
{
    let yy = if m <= 2 {
        y - 1
    } else {
        y
    };
    let era = yy / 400;
    let yoe = yy - era * 400;
    let mp = (m + 9) % 12;
    let doy = (153 * mp + 2) / 5 + d - 1;
    let doe = yoe * 365 + yoe / 4 - yoe / 100 + doy;
    era * 146097 + doe - 719468
}

/// The Unix timestamp of a civil date at a whole hour.
pub open spec fn epoch_spec(y: int, m: int, d: int, h: int) -> int {
    civil_days_spec(y, m, d) * 86400 + h * 3600
}

/// Relies on `chrono::NaiveDate::from_ymd_opt`, `and_hms_opt` and
/// `NaiveDateTime::timestamp`: for a valid proleptic-Gregorian date the
/// timestamp is the days-from-civil count times 86400 plus the seconds
/// of the hour.
#[verifier::external_body]
pub fn utc_timestamp(year: i32, month: u32, day: u32, hour: u32) -> (r: i64)
    requires
        0 <= year <= 9999,
        1 <= month <= 12,
        1 <= day <= days_in_month_spec(year as int, month as int),
        hour < 24,
    ensures
        r == epoch_spec(year as int, month as int, day as int, hour as int),
{
    let date = chrono::NaiveDate::from_ymd_opt(year, month, day).unwrap();
    let dt = date.and_hms_opt(hour, 0, 0).unwrap();
    dt.and_utc().timestamp()
}

/// Relies on `chrono::Utc::now` and `DateTime::timestamp`: the current
/// Unix time, about which nothing further is assumed.
#[verifier::external_body]
pub fn now_unix() -> i64 {
    chrono::Utc::now().timestamp()
}

} // verus!
