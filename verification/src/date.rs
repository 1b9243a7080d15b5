//! Calendar dates as plain day numbers.
//!
//! A `Date` holds its day number in the proleptic Gregorian calendar, with
//! January 1 of year 1 as day 1, the counting that chrono's
//! `num_days_from_ce` uses. Day arithmetic and weekday computation are then
//! ordinary integer operations; only the conversions between day numbers and
//! year-month-day text go through chrono.

use vstd::prelude::*;

verus! {

/// Largest supported day number: December 31 of year 9999.
pub const MAX_DAY_NUMBER: u32 = 3_652_059;

/// A day of the week.
#[derive(Clone, Copy, Debug, PartialEq, Eq, Structural)]
pub enum Weekday {
    Mon,
    Tue,
    Wed,
    Thu,
    Fri,
    Sat,
    Sun,
}

/// The weekday of a day number: day 1 (0001-01-01) is a Monday, so the
/// weekday follows the day number modulo 7.
pub open spec fn weekday_of_day(day: int) -> Weekday {
    let r = day % 7;
    if r == 1 {
        Weekday::Mon
    } else if r == 2 {
        Weekday::Tue
    } else if r == 3 {
        Weekday::Wed
    } else if r == 4 {
        Weekday::Thu
    } else if r == 5 {
        Weekday::Fri
    } else if r == 6 {
        Weekday::Sat
    } else {
        Weekday::Sun
    }
}

/// A calendar date, stored as its day number (January 1 of year 1 is day 1).
#[derive(Clone, Copy, Debug, PartialEq, Eq, Structural, Hash)]
pub struct Date {
    pub day: u32,
}

/// Whether a year is a leap year in the Gregorian calendar.
pub open spec fn is_leap_year(y: int) -> bool {
    (y % 4 == 0 && y % 100 != 0) || y % 400 == 0
}

/// The number of days in a month of a given year.
pub open spec fn days_in_month(y: int, m: int) -> int {
    if m == 1 || m == 3 || m == 5 || m == 7 || m == 8 || m == 10 || m == 12 {
        31
    } else if m == 4 || m == 6 || m == 9 || m == 11 {
        30
    } else if m == 2 {
        if is_leap_year(y) {
            29
        } else {
            28
        }
    } else {
        0
    }
}

/// Whether a year-month-day triple names a calendar date this library
/// supports (years 1 through 9999).
pub open spec fn is_valid_ymd(y: int, m: int, d: int) -> bool {
    &&& 1 <= y <= 9999
    &&& 1 <= m <= 12
    &&& 1 <= d <= days_in_month(y, m)
}

/// The day number of a valid year-month-day triple, as chrono counts it.
pub uninterp spec fn day_number_of_ymd(y: int, m: int, d: int) -> int;

/// The `YYYY-MM-DD` text of a day number, as chrono renders it.
pub uninterp spec fn ymd_text_of_day(day: int) -> Seq<char>;

/// The day number that chrono reads from a `%Y-%m-%d` text, `None` when the
/// text does not parse as such a date.
pub uninterp spec fn day_number_of_text(s: Seq<char>) -> Option<i64>;

/// Relies on chrono's `NaiveDate::from_ymd_opt`, which returns `Some`
/// exactly on valid calendar dates, and `num_days_from_ce`, which counts
/// days with 0001-01-01 as day 1; for years 1 through 9999 the count lies
/// between 1 and 3 652 059.
#[verifier::external_body]
fn ymd_to_day_number(year: i32, month: u32, day: u32) -> (r: Option<u32>)
    requires
        1 <= year <= 9999,
    ensures
        r is Some <==> is_valid_ymd(year as int, month as int, day as int),
        r matches Some(n) ==> n == day_number_of_ymd(year as int, month as int, day as int)
            && 1 <= n <= MAX_DAY_NUMBER,
{
    let date = chrono::NaiveDate::from_ymd_opt(year, month, day)?;
    Some(chrono::Datelike::num_days_from_ce(&date) as u32)
}

/// Relies on chrono's `NaiveDate::from_num_days_from_ce_opt`, which accepts
/// every day number in this library's range, and the `%Y-%m-%d` formatter:
/// the text depends on the day number alone.
#[verifier::external_body]
pub(crate) fn format_day_number(day: u32) -> (r: String)
    requires
        1 <= day <= MAX_DAY_NUMBER,
    ensures
        r@ == ymd_text_of_day(day as int),
{
    let date = chrono::NaiveDate::from_num_days_from_ce_opt(day as i32)
        .expect("day number within supported range");
    date.format("%Y-%m-%d").to_string()
}

/// Relies on chrono's `NaiveDate::parse_from_str` with the `%Y-%m-%d`
/// format and `num_days_from_ce`: success and value depend on the text
/// alone.
#[verifier::external_body]
fn parse_day_number(text: &str) -> (r: Option<i64>)
    ensures
        r == day_number_of_text(text@),
{
    let date = chrono::NaiveDate::parse_from_str(text, "%Y-%m-%d").ok()?;
    Some(chrono::Datelike::num_days_from_ce(&date) as i64)
}

impl Date {
    /// A date this library can hold: day numbers of years 1 through 9999.
    pub open spec fn valid(self) -> bool {
        1 <= self.day <= MAX_DAY_NUMBER
    }

    /// Builds the date named by a year-month-day triple, or `None` when the
    /// triple is not a valid date of years 1 through 9999.
    pub fn from_ymd(year: i32, month: u32, day: u32) -> (r: Option<Date>)
        ensures
            r is Some <==> is_valid_ymd(year as int, month as int, day as int),
            r matches Some(date) ==> date.day == day_number_of_ymd(
                year as int,
                month as int,
                day as int,
            ) && date.valid(),
    {
        if year < 1 || year > 9999 {
            return None;
        }
        match ymd_to_day_number(year, month, day) {
            Some(n) => Some(Date { day: n }),
            None => None,
        }
    }

    /// Reads a `YYYY-MM-DD` text into a date; `None` when the text does not
    /// parse or names a date outside years 1 through 9999.
    pub fn parse(text: &str) -> (r: Option<Date>)
        ensures
            r matches Some(date) ==> date.valid() && day_number_of_text(text@) == Some(
                date.day as i64,
            ),
            r is None ==> match day_number_of_text(text@) {
                Some(n) => !(1 <= n <= MAX_DAY_NUMBER),
                None => true,
            },
            r is Some <==> (day_number_of_text(text@) matches Some(n) && 1 <= n
                <= MAX_DAY_NUMBER),
    {
        match parse_day_number(text) {
            Some(n) => {
                if 1 <= n && n <= MAX_DAY_NUMBER as i64 {
                    Some(Date { day: n as u32 })
                } else {
                    None
                }
            },
            None => None,
        }
    }

    /// The `YYYY-MM-DD` text of this date.
    pub fn format(self) -> (r: String)
        requires
            self.valid(),
        ensures
            r@ == ymd_text_of_day(self.day as int),
    {
        format_day_number(self.day)
    }

    /// The day of the week this date falls on.
    pub fn weekday(self) -> (w: Weekday)
        ensures
            w == weekday_of_day(self.day as int),
    {
        let r: u32 = self.day % 7;
        if r == 1 {
            Weekday::Mon
        } else if r == 2 {
            Weekday::Tue
        } else if r == 3 {
            Weekday::Wed
        } else if r == 4 {
            Weekday::Thu
        } else if r == 5 {
            Weekday::Fri
        } else if r == 6 {
            Weekday::Sat
        } else {
            Weekday::Sun
        }
    }

    /// The date `n` days after this one, or `None` when that leaves the
    /// supported range.
    pub fn add_days(self, n: u32) -> (r: Option<Date>)
        ensures
            self.day + n <= MAX_DAY_NUMBER ==> r == Some(Date { day: (self.day + n) as u32 }),
            self.day + n > MAX_DAY_NUMBER ==> r is None,
    {
        if n <= MAX_DAY_NUMBER && self.day <= MAX_DAY_NUMBER - n {
            Some(Date { day: self.day + n })
        } else {
            None
        }
    }
}

} // verus!
