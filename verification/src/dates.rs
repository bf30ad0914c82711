//! Calendar arithmetic for the SEARCH date filter and the
//! INTERNALDATE field.  The civil-calendar model is stated here as
//! spec functions; the conversions themselves are done by chrono
//! behind the two trusted wrappers at the bottom.
use vstd::prelude::*;

use crate::strutil::lower_seq;
use crate::strutil::str_eq_ci;

verus! {

/// Seconds in a civil day.
pub const SECS_PER_DAY: u64 = 86400;

/// The last instant this library will format: 9999-12-31 23:59:59 UTC.
pub const MAX_FORMAT_TS: i64 = 253402300799;

pub open spec fn is_leap_year(y: int) -> bool {
    (y % 4 == 0 && y % 100 != 0) || y % 400 == 0
}

pub open spec fn days_in_year(y: int) -> int {
    if is_leap_year(y) {
        366
    } else {
        365
    }
}

/// Days from 1970-01-01 to the first day of year `y`.
pub open spec fn days_before_year(y: int) -> int
    decreases y,
{
    if y <= 1970 {
        0
    } else {
        days_before_year(y - 1) + days_in_year(y - 1)
    }
}

pub open spec fn days_in_month(y: int, m: int) -> int {
    if m == 2 {
        if is_leap_year(y) {
            29
        } else {
            28
        }
    } else if m == 4 || m == 6 || m == 9 || m == 11 {
        30
    } else {
        31
    }
}

/// Days from the first day of year `y` to the first day of its month `m`.
pub open spec fn days_before_month(y: int, m: int) -> int
    decreases m,
{
    if m <= 1 {
        0
    } else {
        days_before_month(y, m - 1) + days_in_month(y, m - 1)
    }
}

/// Days from 1970-01-01 to the civil date `y-m-d`.
pub open spec fn epoch_days(y: int, m: int, d: int) -> int {
    days_before_year(y) + days_before_month(y, m) + (d - 1)
}

pub open spec fn valid_date(y: int, m: int, d: int) -> bool {
    1 <= m <= 12 && 1 <= d <= days_in_month(y, m)
}

/// Days in a civil month, for the years the calendar model covers.
pub fn month_length(y: u64, m: u32) -> (r: u32)
    requires
        1 <= m <= 12,
    ensures
        r == days_in_month(y as int, m as int),
{
    if m == 2 {
        if (y % 4 == 0 && y % 100 != 0) || y % 400 == 0 {
            29
        } else {
            28
        }
    } else if m == 4 || m == 6 || m == 9 || m == 11 {
        30
    } else {
        31
    }
}

pub proof fn lemma_days_before_year_nonneg(y: int)
    ensures
        days_before_year(y) >= 0,
    decreases y,
{
    if y > 1970 {
        lemma_days_before_year_nonneg(y - 1);
    }
}

pub proof fn lemma_days_before_month_nonneg(y: int, m: int)
    ensures
        days_before_month(y, m) >= 0,
    decreases m,
{
    if m > 1 {
        lemma_days_before_month_nonneg(y, m - 1);
    }
}

/// Any date from 1970 on lies at or after the epoch.
pub proof fn lemma_epoch_days_nonneg(y: int, m: int, d: int)
    requires
        y >= 1970,
        1 <= m,
        1 <= d,
    ensures
        epoch_days(y, m, d) >= 0,
{
    lemma_days_before_year_nonneg(y);
    lemma_days_before_month_nonneg(y, m);
}

/// The month number named by a `DD-Mon-YYYY` month token, counted from
/// 1, compared without regard to case; 0 for anything else.
pub open spec fn month_of(s: Seq<char>) -> int {
    if lower_seq(s) == lower_seq("Jan"@) {
        1
    } else if lower_seq(s) == lower_seq("Feb"@) {
        2
    } else if lower_seq(s) == lower_seq("Mar"@) {
        3
    } else if lower_seq(s) == lower_seq("Apr"@) {
        4
    } else if lower_seq(s) == lower_seq("May"@) {
        5
    } else if lower_seq(s) == lower_seq("Jun"@) {
        6
    } else if lower_seq(s) == lower_seq("Jul"@) {
        7
    } else if lower_seq(s) == lower_seq("Aug"@) {
        8
    } else if lower_seq(s) == lower_seq("Sep"@) {
        9
    } else if lower_seq(s) == lower_seq("Oct"@) {
        10
    } else if lower_seq(s) == lower_seq("Nov"@) {
        11
    } else if lower_seq(s) == lower_seq("Dec"@) {
        12
    } else {
        0
    }
}

/// Parse a month name abbreviation, without regard to case.
pub fn month_number(s: &str) -> (r: Option<u32>)
    ensures
        r is Some <==> month_of(s@) != 0,
        r is Some ==> r->0 == month_of(s@),
{
    if str_eq_ci(s, "Jan") {
        Some(1)
    } else if str_eq_ci(s, "Feb") {
        Some(2)
    } else if str_eq_ci(s, "Mar") {
        Some(3)
    } else if str_eq_ci(s, "Apr") {
        Some(4)
    } else if str_eq_ci(s, "May") {
        Some(5)
    } else if str_eq_ci(s, "Jun") {
        Some(6)
    } else if str_eq_ci(s, "Jul") {
        Some(7)
    } else if str_eq_ci(s, "Aug") {
        Some(8)
    } else if str_eq_ci(s, "Sep") {
        Some(9)
    } else if str_eq_ci(s, "Oct") {
        Some(10)
    } else if str_eq_ci(s, "Nov") {
        Some(11)
    } else if str_eq_ci(s, "Dec") {
        Some(12)
    } else {
        None
    }
}

/// The INTERNALDATE rendering chrono gives a UTC timestamp under the
/// format `%Y-%b-%d %H:%M:%S %z`; it depends on the timestamp alone.
pub uninterp spec fn internal_date_of(secs: int) -> Seq<char>;

/// Relies on chrono's `NaiveDate::from_ymd_opt` (`Some` exactly on
/// calendar-valid dates), `NaiveDateTime::and_utc` and
/// `DateTime::timestamp` (non-leap seconds since 1970-01-01 UTC, so
/// 86400 per civil day).
#[verifier::external_body]
pub(crate) fn ymd_midnight_epoch(year: i32, month: u32, day: u32) -> (r: Option<i64>)
    requires
        1970 <= year <= 9999,
    ensures
        r is Some <==> valid_date(year as int, month as int, day as int),
        r is Some ==> r->0 == SECS_PER_DAY * epoch_days(year as int, month as int, day as int),
{
    match chrono::NaiveDate::from_ymd_opt(year, month, day) {
        None => None,
        Some(date) => match date.and_hms_opt(0, 0, 0) {
            None => None,
            Some(dt) => Some(dt.and_utc().timestamp()),
        },
    }
}

/// Relies on chrono's `DateTime::from_timestamp` (`Some` for any
/// in-range timestamp) and its `%Y-%b-%d %H:%M:%S %z` formatting of a
/// UTC datetime, a function of the timestamp alone.
#[verifier::external_body]
pub(crate) fn format_internal_date(secs: i64) -> (r: String)
    requires
        0 <= secs <= MAX_FORMAT_TS,
    ensures
        r@ == internal_date_of(secs as int),
{
    let dt = chrono::DateTime::<chrono::Utc>::from_timestamp(secs, 0).unwrap();
    dt.format("%Y-%b-%d %H:%M:%S %z").to_string()
}

} // verus!
