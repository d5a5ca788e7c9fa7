//! Calendar arithmetic on UTC timestamps (whole seconds since the Unix epoch).

use chrono::{Datelike, TimeZone, Utc};
use vstd::arithmetic::div_mod::lemma_fundamental_div_mod;
use vstd::prelude::*;

verus! {

/// Seconds in one day.
pub const SECONDS_PER_DAY: i64 = 86400;

/// Seconds in one week.
pub const SECONDS_PER_WEEK: i64 = 604800;

/// The earliest calendar year that a date can carry: that of chrono's
/// `NaiveDate::MIN`.
pub const MIN_YEAR: i32 = -262143;

/// The latest calendar year that a date can carry: that of chrono's
/// `NaiveDate::MAX`.
pub const MAX_YEAR: i32 = 262142;

/// Midnight (00:00:00 UTC) of the day that holds `t`.
pub open spec fn day_start(t: int) -> int {
    t - t % (SECONDS_PER_DAY as int)
}

/// Whole days that have passed since the most recent Sunday, counting the day
/// of `t` itself as day 0 when it is a Sunday (1970-01-01 was a Thursday).
pub open spec fn days_since_sunday(t: int) -> int {
    (t / (SECONDS_PER_DAY as int) + 4) % 7
}

/// `t` is 00:00:00 UTC of a Sunday.
pub open spec fn is_sunday_midnight(t: int) -> bool {
    t % (SECONDS_PER_DAY as int) == 0 && days_since_sunday(t) == 0
}

/// A year that a date can carry.
pub open spec fn is_valid_year(year: int) -> bool {
    MIN_YEAR <= year <= MAX_YEAR
}

/// The moment a calendar reading was taken: its timestamp, and the UTC year
/// and month that the timestamp falls in. The three are taken as given;
/// `current_instant` reads them from one reading of the clock.
#[derive(Clone, Copy, Debug, PartialEq, Eq)]
pub struct CurrentInstant {
    pub timestamp: i64,
    pub year: i32,
    /// 1 for January through 12 for December.
    pub month: u32,
}

impl CurrentInstant {
    /// A month 1 to 12, and a year with a year before and after it.
    pub open spec fn wf(&self) -> bool {
        &&& 1 <= self.month <= 12
        &&& i32::MIN < self.year < i32::MAX
    }
}

/// Days from 1970-01-01 to the first of `month` (1 to 12) in `year`, in the
/// proleptic Gregorian calendar. Years are counted from March, so that the
/// leap day closes the year: the count is whole 400-year eras, then whole
/// years within the era, then the days of the months since March.
pub open spec fn days_to_month(year: int, month: int) -> int {
    let y = if month <= 2 { year - 1 } else { year };
    let era = y / 400;
    let year_of_era = y - era * 400;
    let month_from_march = (month + 9) % 12;
    let day_of_year = (153 * month_from_march + 2) / 5;
    let day_of_era = year_of_era * 365 + year_of_era / 4 - year_of_era / 100 + day_of_year;
    era * 146097 + day_of_era - 719468
}

/// The timestamp of the first day of `month` in `year`, at 00:00:00 UTC.
pub open spec fn month_start(year: int, month: int) -> int {
    days_to_month(year, month) * (SECONDS_PER_DAY as int)
}

/// The year and month that follow `month` of `year`.
pub open spec fn next_month(year: int, month: int) -> (int, int) {
    if month == 12 {
        (year + 1, 1)
    } else {
        (year, month + 1)
    }
}

/// `year` is a leap year of the Gregorian calendar.
pub open spec fn is_leap_year(year: int) -> bool {
    year % 4 == 0 && (year % 100 != 0 || year % 400 == 0)
}

/// The number of days in `month` of `year`.
pub open spec fn days_in_month(year: int, month: int) -> int {
    if month == 2 {
        if is_leap_year(year) { 29 } else { 28 }
    } else if month == 4 || month == 6 || month == 9 || month == 11 {
        30
    } else {
        31
    }
}

/// A reading of the clock: the year lies within chrono's range of dates, and
/// the year and month are those that the timestamp falls in.
pub open spec fn is_clock_reading(now: CurrentInstant) -> bool {
    let (ny, nm) = next_month(now.year as int, now.month as int);
    &&& 1 <= now.month <= 12
    &&& is_valid_year(now.year as int)
    &&& month_start(now.year as int, now.month as int) <= now.timestamp < month_start(ny, nm)
}

/// Relies on chrono's `From<SystemTime> for DateTime<Utc>` and
/// `DateTime::{timestamp, year, month}`: the current time, with the UTC year
/// and month that it falls in, the year within chrono's range of dates.
/// chrono panics where the system clock reads outside that range.
#[verifier::external_body]
pub(crate) fn current_instant() -> (r: CurrentInstant)
    ensures
        is_clock_reading(r),
{
    let now = chrono::DateTime::<Utc>::from(std::time::SystemTime::now());
    CurrentInstant { timestamp: now.timestamp(), year: now.year(), month: now.month() }
}

/// Relies on chrono's `TimeZone::with_ymd_and_hms` for `Utc`: a date exists
/// for every month 1 to 12 of every year within chrono's range, and for no
/// other pair; its timestamp counts the days of the proleptic Gregorian
/// calendar since 1970-01-01.
#[verifier::external_body]
pub(crate) fn month_start_timestamp(year: i32, month: u32) -> (r: Option<i64>)
    ensures
        r.is_some() <==> (is_valid_year(year as int) && 1 <= month <= 12),
        r.is_some() ==> r.unwrap() == month_start(year as int, month as int),
{
    Utc.with_ymd_and_hms(year, month, 1, 0, 0, 0).single().map(|t| t.timestamp())
}

/// Midnight of the day that holds `t`, or `None` where that falls before the
/// earliest `i64`.
pub fn day_start_of(t: i64) -> (r: Option<i64>)
    ensures
        r.is_some() <==> day_start(t as int) >= i64::MIN,
        r.is_some() ==> r.unwrap() == day_start(t as int),
{
    let rem = t.checked_rem_euclid(SECONDS_PER_DAY).unwrap();
    t.checked_sub(rem)
}

/// Days since the most recent Sunday, 0 to 6.
pub fn days_since_sunday_of(t: i64) -> (r: i64)
    ensures
        r == days_since_sunday(t as int),
        0 <= r < 7,
{
    let days = t.checked_div_euclid(SECONDS_PER_DAY).unwrap();
    let weekday = days.checked_rem_euclid(7).unwrap();
    proof {
        assert((days + 4) % 7 == (weekday + 4) % 7) by (nonlinear_arith)
            requires weekday == days % 7;
    }
    (weekday + 4) % 7
}

/// The decimal digit `d`, for `0 <= d < 10`.
pub open spec fn digit_char(d: int) -> char {
    if d == 0 { '0' } else if d == 1 { '1' } else if d == 2 { '2' } else if d == 3 { '3' }
    else if d == 4 { '4' } else if d == 5 { '5' } else if d == 6 { '6' } else if d == 7 { '7' }
    else if d == 8 { '8' } else { '9' }
}

/// The digits of `n` in base ten, without leading zeros.
pub open spec fn digits(n: nat) -> Seq<char>
    decreases n,
{
    if n < 10 {
        seq![digit_char(n as int)]
    } else {
        digits(n / 10).push(digit_char((n % 10) as int))
    }
}

/// `n` written in base ten, with a leading `-` when it is negative.
pub open spec fn decimal(n: int) -> Seq<char> {
    if n < 0 {
        seq!['-'] + digits((-n) as nat)
    } else {
        digits(n as nat)
    }
}

/// Relies on the standard library's `Display` for `i32`: base ten, a leading
/// `-` for a negative number, no leading zeros.
#[verifier::external_body]
pub(crate) fn decimal_text(n: i32) -> (r: String)
    ensures
        r@ == decimal(n as int),
{
    n.to_string()
}

/// Days from 1970-01-01 to the first of March of `y`.
pub open spec fn days_to_march(y: int) -> int {
    let era = y / 400;
    let year_of_era = y - era * 400;
    era * 146097 + year_of_era * 365 + year_of_era / 4 - year_of_era / 100 - 719468
}

/// A year from March to March holds 366 days when the February it closes
/// with is a leap one, 365 otherwise.
pub proof fn lemma_year_from_march(y: int)
    ensures
        days_to_march(y + 1) - days_to_march(y) == if is_leap_year(y + 1) { 366int } else { 365int },
{
    let z = y + 1;
    lemma_fundamental_div_mod(y, 400);
    lemma_fundamental_div_mod(z, 400);
    let ey = y / 400;
    let ez = z / 400;
    let a = y - ey * 400;
    let b = z - ez * 400;
    assert(0 <= a < 400 && 0 <= b < 400);
    if b == 0 {
        assert(ez == ey + 1 && a == 399) by (nonlinear_arith)
            requires z == y + 1, y == 400 * ey + a, z == 400 * ez + b, 0 <= a < 400, b == 0;
        assert(z % 400 == 0 && z % 4 == 0) by (nonlinear_arith)
            requires z == 400 * ez;
    } else {
        assert(ez == ey && b == a + 1) by (nonlinear_arith)
            requires z == y + 1, y == 400 * ey + a, z == 400 * ez + b, 0 <= a < 400, 0 < b < 400;
        assert(z % 4 == b % 4 && z % 100 == b % 100 && z % 400 == b) by (nonlinear_arith)
            requires z == 400 * ez + b, 0 < b < 400;
        assert(b / 4 - a / 4 == if b % 4 == 0 { 1int } else { 0int }) by (nonlinear_arith)
            requires b == a + 1, 0 <= a < 399;
        assert(b / 100 - a / 100 == if b % 100 == 0 { 1int } else { 0int }) by (nonlinear_arith)
            requires b == a + 1, 0 <= a < 399;
    }
}

/// Each month lasts as many days as the calendar gives it, the leap day of
/// February included.
pub proof fn lemma_month_length(year: int, month: int)
    requires
        1 <= month <= 12,
    ensures
        month_start(next_month(year, month).0, next_month(year, month).1) - month_start(year, month)
            == days_in_month(year, month) * (SECONDS_PER_DAY as int),
{
    let (ny, nm) = next_month(year, month);
    let y = if month <= 2 { year - 1 } else { year };
    assert(days_to_month(year, month) == days_to_march(y) + (153 * ((month + 9) % 12) + 2) / 5);
    if month == 2 {
        lemma_year_from_march(year - 1);
        assert(days_to_month(ny, nm) == days_to_march(year));
    } else {
        assert(days_to_month(ny, nm) == days_to_march(y) + (153 * ((nm + 9) % 12) + 2) / 5);
    }
    assert(days_to_month(ny, nm) - days_to_month(year, month) == days_in_month(year, month));
}

/// No month of a year within chrono's range starts before the earliest one.
pub proof fn lemma_month_start_lower_bound(year: int, month: int)
    requires
        is_valid_year(year),
        1 <= month <= 12,
    ensures
        month_start(year, month) >= -96559100 * (SECONDS_PER_DAY as int),
{
    let y = if month <= 2 { year - 1 } else { year };
    lemma_fundamental_div_mod(y, 400);
    let era = y / 400;
    let a = y - era * 400;
    assert(era >= -656) by (nonlinear_arith)
        requires y == 400 * era + y % 400, 0 <= y % 400 < 400, y >= -262144;
    assert(0 <= a < 400);
    assert(a * 365 + a / 4 - a / 100 >= 0) by (nonlinear_arith)
        requires 0 <= a < 400;
    assert(era * 146097 >= -656 * 146097) by (nonlinear_arith)
        requires era >= -656;
    assert(days_to_month(year, month) >= -96559100);
}

} // verus!
