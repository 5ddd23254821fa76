//! Calendar dates as day numbers, with the calendar arithmetic done by `chrono`.
//!
//! A `Date` holds the number of days since the start of the common era
//! (January 1 of year 1 is day 1), which is how `chrono::NaiveDate` numbers
//! its days. Every `Date` lies in the range that `chrono::NaiveDate` can hold.

use chrono::Datelike;
use vstd::prelude::*;

verus! {

/// Day number of `chrono::NaiveDate::MIN` (January 1 of year -262143).
pub const MIN_DAY: i32 = -95746129i32;

/// Day number of `chrono::NaiveDate::MAX` (December 31 of year 262142).
pub const MAX_DAY: i32 = 95745399i32;

/// Whether a day number denotes a date that `chrono::NaiveDate` can hold.
pub open spec fn in_range(d: int) -> bool {
    MIN_DAY <= d <= MAX_DAY
}

/// The first and last years that `chrono::NaiveDate` holds.
pub const MIN_YEAR: i32 = -262143i32;
pub const MAX_YEAR: i32 = 262142i32;

/// Whether a year of the proleptic Gregorian calendar is a leap year.
pub open spec fn is_leap_year(y: int) -> bool {
    (y % 4 == 0 && y % 100 != 0) || y % 400 == 0
}

/// The number of days of a month (1 to 12) of a year.
pub open spec fn days_in_month(y: int, m: int) -> int {
    if m == 2 {
        if is_leap_year(y) { 29 } else { 28 }
    } else if m == 4 || m == 6 || m == 9 || m == 11 {
        30
    } else {
        31
    }
}

/// The days of the months of a year before month `m`.
pub open spec fn days_before_month(y: int, m: int) -> int
    decreases m,
{
    if m <= 1 {
        0
    } else {
        days_before_month(y, m - 1) + days_in_month(y, m - 1)
    }
}

/// The days of the years before year `y`, counted from January 1 of year 1.
pub open spec fn days_before_year(y: int) -> int {
    (y - 1) * 365 + (y - 1) / 4 - (y - 1) / 100 + (y - 1) / 400
}

/// The day number, counted from January 1 of year 1 as day 1, of a year, month and
/// day of the proleptic Gregorian calendar.
pub open spec fn day_number_of(y: int, m: int, d: int) -> int {
    days_before_year(y) + days_before_month(y, m) + d
}

/// The day number of a year, month and day, or `None` where the date does not exist
/// or the year lies outside `chrono`'s range.
pub open spec fn ymd_day_number(year: i32, month: u32, day: u32) -> Option<i32> {
    if MIN_YEAR <= year <= MAX_YEAR && 1 <= month <= 12 && 1 <= day <= days_in_month(year as int, month as int) {
        Some(day_number_of(year as int, month as int, day as int) as i32)
    } else {
        None
    }
}

/// Name for the `%Y-%m-%d` rendering (`Display`) that `chrono` gives the date with this day number.
pub uninterp spec fn iso_text(days: i32) -> Seq<char>;

/// Whether a year, month and day name a date of the proleptic Gregorian calendar
/// within `chrono`'s years.
pub open spec fn ymd_valid(y: int, m: int, d: int) -> bool {
    MIN_YEAR <= y <= MAX_YEAR && 1 <= m <= 12 && 1 <= d <= days_in_month(y, m)
}

/// The year, month and day of the date with this day number: the date whose number
/// `day_number_of` gives is this one.
pub open spec fn ymd_of(days: int) -> (int, int, int) {
    choose|y: int, m: int, d: int| ymd_valid(y, m, d) && day_number_of(y, m, d) == days
}

/// The (year, month) of the date with this day number.
pub open spec fn year_month(days: i32) -> (i32, u32) {
    (ymd_of(days as int).0 as i32, ymd_of(days as int).1 as u32)
}

/// The (month, day of the month) of the date with this day number.
pub open spec fn month_day(days: i32) -> (u32, u32) {
    (ymd_of(days as int).1 as u32, ymd_of(days as int).2 as u32)
}

/// Days since the last Monday of the date with this day number: 0 on a Monday,
/// 6 on a Sunday (day 1, January 1 of year 1, is a Monday).
pub open spec fn weekday_index(day: int) -> int {
    (day - 1) % 7
}

/// Whether an instant, in milliseconds since the Unix epoch, lies far enough inside
/// `chrono`'s range that its local calendar day exists in every time zone: within
/// 8 * 10^15 ms (about 253,000 years) of the epoch, where `chrono` reaches
/// year 262,142 (about 8.2 * 10^15 ms), so `DateTime::from_timestamp_millis` gives
/// `Some` on every such instant.
pub open spec fn local_millis_in_range(ms: int) -> bool {
    -8_000_000_000_000_000 <= ms <= 8_000_000_000_000_000
}

/// A calendar date.
#[derive(Clone, Copy, Debug, PartialEq, Eq, Hash, PartialOrd, Ord)]
pub struct Date {
    days: i32,
}

impl Date {
    /// The day number of the date.
    pub closed spec fn day(self) -> int {
        self.days as int
    }

    /// Every date lies in `chrono`'s range.
    pub closed spec fn wf(self) -> bool {
        in_range(self.days as int)
    }

    /// Two dates with the same day number are the same date.
    pub proof fn lemma_same_day(self, other: Date)
        requires
            self.day() == other.day(),
        ensures
            self == other,
    {
    }

    /// A date's day number lies in range.
    pub proof fn lemma_in_range(self)
        requires
            self.wf(),
        ensures
            in_range(self.day()),
    {
    }

    /// Builds a date from a day number that lies in range.
    pub fn from_day_number(days: i32) -> (d: Date)
        requires
            in_range(days as int),
        ensures
            d.day() == days,
            d.wf(),
    {
        Date { days }
    }

    /// The day number of the date.
    pub fn day_number(&self) -> (n: i32)
        ensures
            n == self.day(),
    {
        self.days
    }

    /// Builds the date for a year, month and day, or `None` where no such date exists.
    pub fn from_ymd_opt(year: i32, month: u32, day: u32) -> (r: Option<Date>)
        ensures
            match ymd_day_number(year, month, day) {
                Some(n) => r is Some && r.unwrap().day() == n && r.unwrap().wf(),
                None => r is None,
            },
    {
        match chrono_ymd(year, month, day) {
            Some(n) => Some(Date { days: n }),
            None => None,
        }
    }

    /// Whether this date is strictly before another.
    pub fn before(&self, other: &Date) -> (b: bool)
        ensures
            b == (self.day() < other.day()),
    {
        self.days < other.days
    }

    /// The later of two dates.
    pub fn later(self, other: Date) -> (d: Date)
        ensures
            d.day() == if self.day() >= other.day() { self.day() } else { other.day() },
            self.wf() && other.wf() ==> d.wf(),
    {
        if self.days >= other.days { self } else { other }
    }

    /// The earlier of two dates.
    pub fn earlier(self, other: Date) -> (d: Date)
        ensures
            d.day() == if self.day() <= other.day() { self.day() } else { other.day() },
            self.wf() && other.wf() ==> d.wf(),
    {
        if self.days <= other.days { self } else { other }
    }

    /// Adds a number of days, or `None` where the result leaves `chrono`'s range.
    pub fn checked_add_days(&self, n: u64) -> (r: Option<Date>)
        requires
            self.wf(),
        ensures
            r is Some <==> in_range(self.day() + n),
            r matches Some(d) ==> d.day() == self.day() + n && d.wf(),
    {
        match chrono_add_days(self.days, n) {
            Some(v) => Some(Date { days: v }),
            None => None,
        }
    }

    /// Subtracts a number of days, or `None` where the result leaves `chrono`'s range.
    pub fn checked_sub_days(&self, n: u64) -> (r: Option<Date>)
        requires
            self.wf(),
        ensures
            r is Some <==> in_range(self.day() - n),
            r matches Some(d) ==> d.day() == self.day() - n && d.wf(),
    {
        match chrono_sub_days(self.days, n) {
            Some(v) => Some(Date { days: v }),
            None => None,
        }
    }

    /// Shifts the date by a signed number of days, as `NaiveDate + Duration::days(n)`
    /// does; `None` where the result leaves `chrono`'s range.
    pub fn checked_shift(&self, n: i64) -> (r: Option<Date>)
        requires
            self.wf(),
        ensures
            r is Some <==> in_range(self.day() + n),
            r matches Some(d) ==> d.day() == self.day() + n && d.wf(),
    {
        if n >= 0 {
            self.checked_add_days(n as u64)
        } else if n == i64::MIN {
            None
        } else {
            self.checked_sub_days((-n) as u64)
        }
    }

    /// Signed number of days from `other` to `self`, as
    /// `self.signed_duration_since(other).num_days()` gives it.
    pub fn days_since(&self, other: &Date) -> (n: i64)
        requires
            self.wf(),
            other.wf(),
        ensures
            n == self.day() - other.day(),
    {
        self.days as i64 - other.days as i64
    }

    /// The `%Y-%m-%d` rendering of the date.
    pub fn to_iso_string(&self) -> (s: String)
        requires
            self.wf(),
        ensures
            s@ == iso_text(self.day() as i32),
    {
        chrono_iso_text(self.days)
    }

    /// The year and the month (from 1 to 12) of the date.
    pub fn year_month(&self) -> (r: (i32, u32))
        requires
            self.wf(),
        ensures
            r == year_month(self.day() as i32),
            1 <= r.1 <= 12,
    {
        chrono_year_month(self.days)
    }

    /// The month (from 1 to 12) and the day of the month (from 1 to 31) of the date.
    pub fn month_day(&self) -> (r: (u32, u32))
        requires
            self.wf(),
        ensures
            r == month_day(self.day() as i32),
            1 <= r.0 <= 12,
            1 <= r.1 <= 31,
    {
        chrono_month_day(self.days)
    }

    /// Days since the last Monday: 0 on a Monday, 6 on a Sunday.
    pub fn weekday_from_monday(&self) -> (w: u32)
        requires
            self.wf(),
        ensures
            w == weekday_index(self.day()),
    {
        chrono_weekday(self.days)
    }

    /// The local calendar day of an instant given in milliseconds since the Unix epoch.
    /// Which day it is depends on the machine's time zone.
    pub fn local_day_of_millis(ms: i64) -> (d: Date)
        requires
            local_millis_in_range(ms as int),
        ensures
            d.wf(),
    {
        Date { days: chrono_local_day(ms) }
    }

    /// Today's date in UTC.
    pub fn today() -> (d: Date)
        ensures
            d.wf(),
    {
        Date { days: chrono_today() }
    }
}

/// `chrono::NaiveDate::from_ymd_opt`, read back as a day number through
/// `Datelike::num_days_from_ce`. Claims what `chrono` documents: the date exists
/// exactly when the year lies from `MIN_YEAR` to `MAX_YEAR`, the month from 1 to 12
/// and the day within the month of the proleptic Gregorian calendar, and its number
/// counts the days from January 1 of year 1 as day 1; and, as every `NaiveDate`
/// does, it lies in range.
#[verifier::external_body]
fn chrono_ymd(year: i32, month: u32, day: u32) -> (r: Option<i32>)
    ensures
        r == ymd_day_number(year, month, day),
        r matches Some(n) ==> in_range(n as int),
{
    match chrono::NaiveDate::from_ymd_opt(year, month, day) {
        Some(d) => Some(d.num_days_from_ce()),
        None => None,
    }
}

/// `chrono::NaiveDate::checked_add_days` on the date with this day number.
/// Claims what its source shows: the result is the day `n` days later, and
/// `None` exactly where that day leaves `NaiveDate::MIN ..= NaiveDate::MAX`.
#[verifier::external_body]
fn chrono_add_days(days: i32, n: u64) -> (r: Option<i32>)
    requires
        in_range(days as int),
    ensures
        r is Some <==> in_range(days + n),
        r matches Some(v) ==> v == days + n,
{
    let d = chrono::NaiveDate::from_num_days_from_ce_opt(days).unwrap();
    match d.checked_add_days(chrono::Days::new(n)) {
        Some(x) => Some(x.num_days_from_ce()),
        None => None,
    }
}

/// `chrono::NaiveDate::checked_sub_days` on the date with this day number.
/// Claims what its source shows: the result is the day `n` days earlier, and
/// `None` exactly where that day leaves `NaiveDate::MIN ..= NaiveDate::MAX`.
#[verifier::external_body]
fn chrono_sub_days(days: i32, n: u64) -> (r: Option<i32>)
    requires
        in_range(days as int),
    ensures
        r is Some <==> in_range(days - n),
        r matches Some(v) ==> v == days - n,
{
    let d = chrono::NaiveDate::from_num_days_from_ce_opt(days).unwrap();
    match d.checked_sub_days(chrono::Days::new(n)) {
        Some(x) => Some(x.num_days_from_ce()),
        None => None,
    }
}

/// The `Display` rendering of the `chrono::NaiveDate` with this day number, which
/// `chrono` documents as `%Y-%m-%d`; the text is named.
#[verifier::external_body]
fn chrono_iso_text(days: i32) -> (s: String)
    requires
        in_range(days as int),
    ensures
        s@ == iso_text(days),
{
    let d = chrono::NaiveDate::from_num_days_from_ce_opt(days).unwrap();
    d.to_string()
}

/// `Datelike::year` and `Datelike::month` of the `chrono::NaiveDate` with this day
/// number. Claims what `chrono` documents: they are the year and month of the
/// proleptic Gregorian date that the day number counts to (January 1 of year 1 being
/// day 1), and the month lies from 1 to 12.
#[verifier::external_body]
fn chrono_year_month(days: i32) -> (r: (i32, u32))
    requires
        in_range(days as int),
    ensures
        r == year_month(days),
        1 <= r.1 <= 12,
{
    let d = chrono::NaiveDate::from_num_days_from_ce_opt(days).unwrap();
    (d.year(), d.month())
}

/// `Datelike::month` and `Datelike::day` of the `chrono::NaiveDate` with this day
/// number. Claims what `chrono` documents: they are the month and day of the
/// proleptic Gregorian date that the day number counts to (January 1 of year 1 being
/// day 1), the month from 1 to 12 and the day from 1 to 31.
#[verifier::external_body]
fn chrono_month_day(days: i32) -> (r: (u32, u32))
    requires
        in_range(days as int),
    ensures
        r == month_day(days),
        1 <= r.0 <= 12,
        1 <= r.1 <= 31,
{
    let d = chrono::NaiveDate::from_num_days_from_ce_opt(days).unwrap();
    (d.month(), d.day())
}

/// `chrono::Utc::now().date_naive()`, read back as a day number. Only the range is
/// claimed: the value depends on the clock.
#[verifier::external_body]
fn chrono_today() -> (r: i32)
    ensures
        in_range(r as int),
{
    chrono::Utc::now().date_naive().num_days_from_ce()
}

/// `Datelike::weekday` of the `chrono::NaiveDate` with this day number, counted by
/// `Weekday::num_days_from_monday`. Claims the calendar fact that gives it: day 1
/// (January 1 of year 1, proleptic Gregorian) is a Monday, so the count is the day
/// number less one, modulo 7.
#[verifier::external_body]
fn chrono_weekday(days: i32) -> (r: u32)
    requires
        in_range(days as int),
    ensures
        r as int == weekday_index(days as int),
{
    let d = chrono::NaiveDate::from_num_days_from_ce_opt(days).unwrap();
    d.weekday().num_days_from_monday()
}

/// The day number of `date_naive()` of the instant `ms` (milliseconds since the
/// Unix epoch, through `DateTime::from_timestamp_millis`) taken in `chrono::Local`.
/// Only the range is claimed: the day depends on the machine's time zone.
#[verifier::external_body]
fn chrono_local_day(ms: i64) -> (r: i32)
    requires
        local_millis_in_range(ms as int),
    ensures
        in_range(r as int),
{
    let t = chrono::DateTime::from_timestamp_millis(ms).unwrap();
    t.with_timezone(&chrono::Local).date_naive().num_days_from_ce()
}

} // verus!
