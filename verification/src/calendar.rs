//! Which dates the calendar has.
//!
//! The `time` crate decides whether a year, a month and a day make a date.
//! The functions here say what it decides: its calendar is the proleptic
//! Gregorian one, over the years from -9999 to 9999.

use time::error::ComponentRange;
use time::{Date, Month};
use vstd::prelude::*;

verus! {

/// `time::Month`, with its twelve variants.
#[verifier::external_type_specification]
pub struct ExMonth(Month);

/// `time::Date`, of which nothing is read here.
#[verifier::external_type_specification]
#[verifier::external_body]
pub struct ExDate(Date);

/// `time::error::ComponentRange`, of which nothing is read here.
#[verifier::external_type_specification]
#[verifier::external_body]
pub struct ExComponentRange(ComponentRange);

/// The first and the last year that a date can have.
pub open spec fn year_in_range(year: int) -> bool {
    -9999 <= year <= 9999
}

/// Whether `year` has a 29th of February.
pub open spec fn is_leap_year(year: int) -> bool {
    year % 4 == 0 && (year % 100 != 0 || year % 400 == 0)
}

/// The number of days of the month `month` (1 to 12) in `year`.
pub open spec fn days_in_month(year: int, month: int) -> int
    recommends
        1 <= month <= 12,
{
    if month == 2 {
        if is_leap_year(year) {
            29
        } else {
            28
        }
    } else if month == 4 || month == 6 || month == 9 || month == 11 {
        30
    } else {
        31
    }
}

/// Whether the calendar has the day `day` of the month `month` of `year`.
pub open spec fn is_calendar_date(year: int, month: int, day: int) -> bool {
    &&& year_in_range(year)
    &&& 1 <= month <= 12
    &&& 1 <= day <= days_in_month(year, month)
}

/// The number of a month, January being 1.
pub open spec fn month_number(month: Month) -> int {
    match month {
        Month::January => 1,
        Month::February => 2,
        Month::March => 3,
        Month::April => 4,
        Month::May => 5,
        Month::June => 6,
        Month::July => 7,
        Month::August => 8,
        Month::September => 9,
        Month::October => 10,
        Month::November => 11,
        Month::December => 12,
    }
}

/// `Month::try_from` of `time`, for a `u8`.
///
/// Trusted: the numbers 1 to 12 give their month, any other number an
/// error.
#[verifier::external_body]
pub(crate) fn month_from_number(number: u8) -> (month: Result<Month, ComponentRange>)
    ensures
        month is Ok <==> 1 <= number <= 12,
        month is Ok ==> month_number(month->Ok_0) == number,
{
    Month::try_from(number)
}

/// `Date::from_calendar_date` of `time`.
///
/// Trusted: there is a date exactly when the year is in range and the month
/// has that day in that year.
pub assume_specification[ Date::from_calendar_date ](year: i32, month: Month, day: u8) -> (date:
    Result<Date, ComponentRange>)
    ensures
        date is Ok <==> is_calendar_date(year as int, month_number(month), day as int),
;

/// Whether the calendar has the given day.
pub fn calendar_has(year: u16, month: u8, day: u8) -> (has: bool)
    ensures
        has == is_calendar_date(year as int, month as int, day as int),
{
    match month_from_number(month) {
        Err(_) => false,
        Ok(month) => match Date::from_calendar_date(year as i32, month, day) {
            Err(_) => false,
            Ok(_) => true,
        },
    }
}

} // verus!
