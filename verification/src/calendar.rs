//! Calendar dates of the proleptic Gregorian calendar.
//!
//! [`CivilDate`] is the mathematical model: a year, a month and a day as
//! unbounded integers. [`Date`] is the executable value, which always holds a
//! date that exists.
//!
//! The day of the week, the ISO week number, the following day and the
//! abbreviation of the month come from `chrono`, through four functions at
//! the end of this file whose contracts are trusted, not proved. Each hands
//! the date to `chrono::NaiveDate::from_ymd_opt`, which accepts every date
//! that exists in the years from [`MIN_YEAR`] to [`MAX_YEAR`].

use chrono::Datelike;
use chrono::NaiveDate;
use vstd::arithmetic::div_mod::lemma_mod_multiples_vanish;
use vstd::prelude::*;

verus! {

/// The earliest year a [`Date`] may lie in.
pub const MIN_YEAR: i32 = -262143;

/// The latest year a [`Date`] may lie in.
pub const MAX_YEAR: i32 = 262142;

/// The day of the week of a date that exists, as `chrono` numbers it:
/// 0 for Monday up to 6 for Sunday.
pub uninterp spec fn weekday_of(year: int, month: int, day: int) -> int;

/// The ISO 8601 week number of a date that exists, as `chrono` computes it.
pub uninterp spec fn iso_week_of(year: int, month: int, day: int) -> int;

/// English three-letter abbreviation of the month numbered `month`.
pub open spec fn month_name(month: int) -> Seq<char> {
    if month == 1 {
        seq!['J', 'a', 'n']
    } else if month == 2 {
        seq!['F', 'e', 'b']
    } else if month == 3 {
        seq!['M', 'a', 'r']
    } else if month == 4 {
        seq!['A', 'p', 'r']
    } else if month == 5 {
        seq!['M', 'a', 'y']
    } else if month == 6 {
        seq!['J', 'u', 'n']
    } else if month == 7 {
        seq!['J', 'u', 'l']
    } else if month == 8 {
        seq!['A', 'u', 'g']
    } else if month == 9 {
        seq!['S', 'e', 'p']
    } else if month == 10 {
        seq!['O', 'c', 't']
    } else if month == 11 {
        seq!['N', 'o', 'v']
    } else {
        seq!['D', 'e', 'c']
    }
}

/// A year, month and day as mathematical integers.
pub struct CivilDate {
    pub year: int,
    pub month: int,
    pub day: int,
}

/// Gregorian leap-year rule: every fourth year, except centuries that are
/// not multiples of 400.
pub open spec fn is_leap_year(year: int) -> bool {
    year % 4 == 0 && (year % 100 != 0 || year % 400 == 0)
}

/// Number of days of `month` (1 to 12) in `year`.
pub open spec fn days_in_month(year: int, month: int) -> int {
    if month == 2 {
        if is_leap_year(year) {
            29
        } else {
            28
        }
    } else if month == 4 || month == 6 || month == 9 || month == 11 {
        30
    } else {
        31
    }
}

impl CivilDate {
    /// The date exists in the calendar and its year is in range.
    pub open spec fn is_date(self) -> bool {
        &&& MIN_YEAR <= self.year <= MAX_YEAR
        &&& 1 <= self.month <= 12
        &&& 1 <= self.day <= days_in_month(self.year, self.month)
    }

    /// An integer that grows from each day to the next, though not always
    /// by one. It measures how far a walk through the calendar has come.
    pub open spec fn rank(self) -> int {
        (self.year * 12 + (self.month - 1)) * 31 + (self.day - 1)
    }

    /// This date comes earlier in the calendar than `other`.
    pub open spec fn is_before(self, other: CivilDate) -> bool {
        ||| self.year < other.year
        ||| self.year == other.year && self.month < other.month
        ||| self.year == other.year && self.month == other.month && self.day < other.day
    }

    /// The last date of the last year in range.
    pub open spec fn is_last(self) -> bool {
        self.year == MAX_YEAR && self.month == 12 && self.day == 31
    }

    /// Day of the week, 0 for Monday up to 6 for Sunday.
    pub open spec fn weekday(self) -> int {
        weekday_of(self.year, self.month, self.day)
    }

    /// The date falls on a Saturday or a Sunday.
    pub open spec fn is_weekend(self) -> bool {
        self.weekday() == 5 || self.weekday() == 6
    }

    /// ISO 8601 week number.
    pub open spec fn iso_week(self) -> int {
        iso_week_of(self.year, self.month, self.day)
    }

    /// Quarter of the year, 1 to 4.
    pub open spec fn quarter(self) -> int {
        (self.month - 1) / 3 + 1
    }

    /// The following calendar day.
    pub open spec fn next(self) -> CivilDate {
        if self.day < days_in_month(self.year, self.month) {
            CivilDate { year: self.year, month: self.month, day: self.day + 1 }
        } else if self.month < 12 {
            CivilDate { year: self.year, month: self.month + 1, day: 1 }
        } else {
            CivilDate { year: self.year + 1, month: 1, day: 1 }
        }
    }
}

/// A calendar date that exists, between 1 January of [`MIN_YEAR`] and
/// 31 December of [`MAX_YEAR`].
#[derive(Clone, Copy, Debug, PartialEq, Eq, Structural)]
pub struct Date {
    year: i32,
    month: u32,
    day: u32,
}

impl View for Date {
    type V = CivilDate;

    closed spec fn view(&self) -> CivilDate {
        CivilDate { year: self.year as int, month: self.month as int, day: self.day as int }
    }
}

/// Whether `year` is a leap year.
pub fn leap_year(year: i32) -> (leap: bool)
    ensures
        leap == is_leap_year(year as int),
{
    // Shift by a multiple of 400 so that the remainders are taken of a
    // non-negative number.
    let shifted: i64 = year as i64 + 2147483600;
    proof {
        lemma_mod_multiples_vanish(536870900, year as int, 4);
        lemma_mod_multiples_vanish(21474836, year as int, 100);
        lemma_mod_multiples_vanish(5368709, year as int, 400);
    }
    shifted % 4 == 0 && (shifted % 100 != 0 || shifted % 400 == 0)
}

/// Number of days of `month` in `year`; months outside 1 to 12 count 31.
pub fn month_length(year: i32, month: u32) -> (days: u32)
    ensures
        days == days_in_month(year as int, month as int),
{
    if month == 2 {
        if leap_year(year) {
            29
        } else {
            28
        }
    } else if month == 4 || month == 6 || month == 9 || month == 11 {
        30
    } else {
        31
    }
}

impl Date {
    /// Holds of every `Date`: the date it models exists.
    #[verifier::type_invariant]
    pub open spec fn exists_in_calendar(self) -> bool {
        self@.is_date()
    }

    /// Makes a date from year, month and day. Returns `None` exactly when
    /// no such date exists or the year is out of range.
    pub fn from_ymd_opt(year: i32, month: u32, day: u32) -> (made: Option<Date>)
        ensures
            made is Some <==> (CivilDate {
                year: year as int,
                month: month as int,
                day: day as int,
            }).is_date(),
            made is Some ==> made.unwrap()@ == (CivilDate {
                year: year as int,
                month: month as int,
                day: day as int,
            }),
    {
        if year < MIN_YEAR || year > MAX_YEAR || month < 1 || month > 12 || day < 1 {
            return None;
        }
        if day > month_length(year, month) {
            return None;
        }
        Some(Date { year, month, day })
    }

    /// Whether this date is `other` or an earlier one.
    pub fn is_on_or_before(&self, other: &Date) -> (earlier: bool)
        ensures
            earlier == !other@.is_before(self@),
    {
        proof {
            use_type_invariant(self);
            use_type_invariant(other);
        }
        if self.year != other.year {
            self.year < other.year
        } else if self.month != other.month {
            self.month < other.month
        } else {
            self.day <= other.day
        }
    }

    /// The year number.
    pub fn year(&self) -> (year: i32)
        ensures
            year == self@.year,
            MIN_YEAR <= year <= MAX_YEAR,
    {
        proof {
            use_type_invariant(self);
        }
        self.year
    }

    /// The month number, 1 to 12.
    pub fn month(&self) -> (month: u32)
        ensures
            month == self@.month,
            1 <= month <= 12,
    {
        proof {
            use_type_invariant(self);
        }
        self.month
    }

    /// The day of the month, 1 to 31.
    pub fn day(&self) -> (day: u32)
        ensures
            day == self@.day,
            1 <= day <= 31,
    {
        proof {
            use_type_invariant(self);
        }
        self.day
    }
}

/// The dates from `start` to `end`, both included, in calendar order; empty
/// when `end` lies before `start`, or when one of the two does not exist.
pub open spec fn calendar_days(start: CivilDate, end: CivilDate) -> Seq<CivilDate>
    decreases
        if start.rank() <= end.rank() {
            end.rank() - start.rank() + 1
        } else {
            0
        },
{
    if !start.is_date() || !end.is_date() || end.is_before(start) {
        Seq::empty()
    } else {
        seq![start] + calendar_days(start.next(), end)
    }
}

/// The day after a date comes later, and exists unless the date was the
/// last one in range.
pub proof fn lemma_next_day(date: CivilDate)
    requires
        date.is_date(),
    ensures
        date.rank() < date.next().rank(),
        !date.is_last() ==> date.next().is_date(),
        date.is_last() ==> date.next().year > MAX_YEAR,
{
}

/// Calls `chrono::NaiveDate::weekday` on the date and numbers the result with
/// `chrono::Weekday::num_days_from_monday`. Trusted: `chrono` accepts the
/// date, and the number is the one that [`weekday_of`] names.
#[verifier::external_body]
pub(crate) fn weekday_number(date: &Date) -> (number: u32)
    requires
        date@.is_date(),
    ensures
        number == weekday_of(date@.year, date@.month, date@.day),
{
    NaiveDate::from_ymd_opt(date.year, date.month, date.day).unwrap().weekday().num_days_from_monday()
}

/// Calls `chrono::NaiveDate::iso_week` on the date and `chrono::IsoWeek::week`
/// on the result. Trusted: `chrono` accepts the date, and the number is the
/// one that [`iso_week_of`] names and lies between 1 and 53.
#[verifier::external_body]
pub(crate) fn iso_week_number(date: &Date) -> (week: u32)
    requires
        date@.is_date(),
    ensures
        week == iso_week_of(date@.year, date@.month, date@.day),
        1 <= week <= 53,
{
    NaiveDate::from_ymd_opt(date.year, date.month, date.day).unwrap().iso_week().week()
}

/// Calls `chrono::NaiveDate::succ_opt` on the date and reads year, month and
/// day of the result. Trusted: `chrono` accepts the date, and the result is
/// the next day of the calendar, or `None` exactly for 31 December of
/// [`MAX_YEAR`], the last date that `chrono` has.
#[verifier::external_body]
pub(crate) fn following_day(date: &Date) -> (following: Option<Date>)
    requires
        date@.is_date(),
    ensures
        following is None <==> date@.is_last(),
        following is Some ==> following.unwrap()@ == date@.next(),
{
    match NaiveDate::from_ymd_opt(date.year, date.month, date.day).unwrap().succ_opt() {
        Some(next) => Some(Date { year: next.year(), month: next.month(), day: next.day() }),
        None => None,
    }
}

/// Calls `chrono::NaiveDate::format` with the pattern `%b` and turns the
/// result into a `String`. Trusted: `chrono` accepts the date, and the text
/// is the English three-letter abbreviation of the date's month.
#[verifier::external_body]
pub(crate) fn month_abbreviation(date: &Date) -> (name: String)
    requires
        date@.is_date(),
    ensures
        name@ == month_name(date@.month),
{
    NaiveDate::from_ymd_opt(date.year, date.month, date.day).unwrap().format("%b").to_string()
}

} // verus!
