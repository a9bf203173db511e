//! Calendar dates, as far as the exemption log and the report date need
//! them: whether a day exists, and on which day of the week it falls.

use vstd::prelude::*;

verus! {

/// The first year that a date may lie in.
pub const MIN_YEAR: i32 = -262143;

/// The last year that a date may lie in.
pub const MAX_YEAR: i32 = 262142;

/// The number of Friday, counting the days of the week from Monday as 0.
pub const FRIDAY: u32 = 4;

/// A day of the proleptic Gregorian calendar.
#[derive(Clone, Copy, Debug, PartialEq, Eq, Structural)]
pub struct Date {
    pub year: i32,
    pub month: u32,
    pub day: u32,
}

/// Whether `year` has a 29th of February.
pub open spec fn is_leap_year(year: int) -> bool {
    year % 4 == 0 && (year % 100 != 0 || year % 400 == 0)
}

/// The number of days of a month.
pub open spec fn days_in_month(year: int, month: int) -> int {
    if month == 2 {
        if is_leap_year(year) {
            29
        } else {
            28
        }
    } else if month == 4 || month == 6 || month == 9 || month == 11 {
        30
    } else {
        31
    }
}

/// Whether year, month and day name a day of the calendar, within the years
/// that a date may lie in.
pub open spec fn is_calendar_date(year: int, month: int, day: int) -> bool {
    &&& MIN_YEAR <= year <= MAX_YEAR
    &&& 1 <= month <= 12
    &&& 1 <= day <= days_in_month(year, month)
}

/// The day of the week on which a calendar date falls, counted from Monday
/// as 0 to Sunday as 6, as `chrono` computes it. It is meant for calendar
/// dates only.
pub uninterp spec fn weekday_from_monday(year: int, month: int, day: int) -> u32;

/// Asks `chrono` for a calendar date and its day of the week.
///
/// Wraps `chrono::NaiveDate::from_ymd_opt`, which makes a date unless the
/// day does not exist in the calendar, month or day is out of range, or the
/// year lies outside the years from `MIN_YEAR` to `MAX_YEAR`; then
/// `chrono::Datelike::weekday` on that date, numbered with
/// `chrono::Weekday::num_days_from_monday`, which gives 0 to 6. There is no
/// day of the week where there is no such date.
#[verifier::external_body]
fn weekday_number(year: i32, month: u32, day: u32) -> (weekday: Option<u32>)
    ensures
        weekday == if is_calendar_date(year as int, month as int, day as int) {
            Some(weekday_from_monday(year as int, month as int, day as int))
        } else {
            None
        },
        weekday matches Some(number) ==> number < 7,
{
    match chrono::NaiveDate::from_ymd_opt(year, month, day) {
        Some(date) => Some(chrono::Datelike::weekday(&date).num_days_from_monday()),
        None => None,
    }
}

impl Date {
    /// Whether this is a day of the calendar.
    pub open spec fn is_valid(self) -> bool {
        is_calendar_date(self.year as int, self.month as int, self.day as int)
    }

    /// The day of the week of this date, counted from Monday as 0.
    pub open spec fn spec_weekday(self) -> u32 {
        weekday_from_monday(self.year as int, self.month as int, self.day as int)
    }

    /// The date with the given year, month and day, if there is such a day.
    pub fn from_ymd_opt(year: i32, month: u32, day: u32) -> (date: Option<Date>)
        ensures
            date == if is_calendar_date(year as int, month as int, day as int) {
                Some(Date { year, month, day })
            } else {
                None
            },
    {
        match weekday_number(year, month, day) {
            Some(_) => Some(Date { year, month, day }),
            None => None,
        }
    }

    /// The day of the week of this date, counted from Monday as 0, if the
    /// date is a day of the calendar.
    pub fn weekday(&self) -> (weekday: Option<u32>)
        ensures
            weekday == if self.is_valid() {
                Some(self.spec_weekday())
            } else {
                None
            },
            weekday matches Some(number) ==> number < 7,
    {
        weekday_number(self.year, self.month, self.day)
    }

    /// Whether two dates are the same day.
    pub fn same(&self, other: &Date) -> (yes: bool)
        ensures
            yes == (*self == *other),
    {
        self.year == other.year && self.month == other.month && self.day == other.day
    }
}

} // verus!
