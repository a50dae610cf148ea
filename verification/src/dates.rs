//! Reading the dates of a run.
//!
//! A date is written month, day, year, as `MM-DD-YYYY` or `MM/DD/YYYY`: three
//! numbers between two separators of one kind.

use crate::calendar::{calendar_has, is_calendar_date};
use crate::digits::{all_digits, decimal_value, is_digit, lemma_decimal_value_grows};
use crate::text::{chars_of, fields, split_fields};
use vstd::prelude::*;
use vstd::string::StringExecFns;

verus! {

/// A day of the calendar, taken at midnight UTC.
#[derive(Clone, Copy, Debug, PartialEq, Eq, Structural)]
pub struct UtcDate {
    pub year: u16,
    pub month: u8,
    pub day: u8,
}

impl UtcDate {
    /// Whether the calendar has this day.
    pub open spec fn wf(&self) -> bool {
        is_calendar_date(self.year as int, self.month as int, self.day as int)
    }
}

/// A text that is no date.
#[derive(Clone, Copy, Debug, PartialEq, Eq, Structural)]
pub struct InvalidDate;

/// Why the arguments of a run were turned down.
#[derive(Clone, Copy, Debug, PartialEq, Eq, Structural)]
pub enum ArgumentError {
    FileDoesNotExist,
    InvalidDate,
}

impl InvalidDate {
    /// What is said of such a text.
    pub fn message(&self) -> (text: String)
        ensures
            text@ == "not valid date"@,
    {
        String::from_str("not valid date")
    }
}

impl ArgumentError {
    /// What is said of arguments that were turned down for this reason.
    pub fn message(&self) -> (text: String)
        ensures
            text@ == match *self {
                ArgumentError::FileDoesNotExist => "file does not exist"@,
                ArgumentError::InvalidDate => "not valid date"@,
            },
    {
        match self {
            ArgumentError::FileDoesNotExist => String::from_str("file does not exist"),
            ArgumentError::InvalidDate => String::from_str("not valid date"),
        }
    }
}

/// The three fields of a date: those between hyphens if that makes three,
/// else those between slashes if that makes three.
pub open spec fn date_fields(s: Seq<char>) -> Option<Seq<Seq<char>>> {
    if fields(s, '-').len() == 3 {
        Some(fields(s, '-'))
    } else if fields(s, '/').len() == 3 {
        Some(fields(s, '/'))
    } else {
        None
    }
}

/// The number that a field writes, if it is at most `max`: decimal digits,
/// at least one, after at most one plus sign.
pub open spec fn unsigned_field(field: Seq<char>, max: nat) -> Option<nat> {
    let digits = if field.len() > 0 && field[0] == '+' {
        field.skip(1)
    } else {
        field
    };
    if digits.len() > 0 && all_digits(digits) && decimal_value(digits) <= max {
        Some(decimal_value(digits))
    } else {
        None
    }
}

/// The date that the fields month, day and year write, if the calendar has
/// it.
pub open spec fn date_of_fields(month: Seq<char>, day: Seq<char>, year: Seq<char>) -> Option<
    UtcDate,
> {
    match (
        unsigned_field(month, u8::MAX as nat),
        unsigned_field(day, u8::MAX as nat),
        unsigned_field(year, u16::MAX as nat),
    ) {
        (Some(m), Some(d), Some(y)) => if is_calendar_date(y as int, m as int, d as int) {
            Some(UtcDate { year: y as u16, month: m as u8, day: d as u8 })
        } else {
            None
        },
        _ => None,
    }
}

/// The date that the text `s` writes, if it writes one.
pub open spec fn parsed_date(s: Seq<char>) -> Option<UtcDate> {
    match date_fields(s) {
        Some(f) => date_of_fields(f[0], f[1], f[2]),
        None => None,
    }
}

/// What checking the arguments of a run gives: the file is looked at first,
/// then the start date, then the end date.
pub open spec fn validated(html_exists: bool, start: Seq<char>, end: Seq<char>) -> Result<
    (UtcDate, UtcDate),
    ArgumentError,
> {
    if !html_exists {
        Err(ArgumentError::FileDoesNotExist)
    } else {
        match (parsed_date(start), parsed_date(end)) {
            (Some(first), Some(last)) => Ok((first, last)),
            _ => Err(ArgumentError::InvalidDate),
        }
    }
}

/// The number that `field` writes, if it is at most `max`.
pub fn parse_unsigned(field: &Vec<char>, max: u32) -> (value: Option<u32>)
    ensures
        match value {
            Some(v) => unsigned_field(field@, max as nat) == Some(v as nat),
            None => unsigned_field(field@, max as nat) is None,
        },
{
    let start: usize = if field.len() > 0 && field[0] == '+' {
        1
    } else {
        0
    };
    let ghost digits = field@.skip(start as int);
    if start >= field.len() {
        return None;
    }
    let mut value: u32 = 0;
    let mut i: usize = start;
    while i < field.len()
        invariant
            start <= i <= field.len(),
            start < field.len(),
            start == if field@.len() > 0 && field@[0] == '+' {
                1int
            } else {
                0int
            },
            digits == field@.skip(start as int),
            field@.skip(0) == field@,
            all_digits(digits.take(i - start)),
            value == decimal_value(digits.take(i - start)),
            value <= max,
        decreases field.len() - i,
    {
        let c: char = field[i];
        let ghost upto = digits.take(i - start + 1);
        assert(upto.drop_last() =~= digits.take(i - start));
        if !('0' <= c && c <= '9') {
            assert(!is_digit(digits[i - start]));
            return None;
        }
        let d: u32 = (c as u32) - ('0' as u32);
        let next: u64 = (value as u64) * 10 + (d as u64);
        if next > max as u64 {
            proof {
                if all_digits(digits) {
                    lemma_decimal_value_grows(digits, i - start + 1);
                }
            }
            return None;
        }
        value = next as u32;
        i += 1;
    }
    assert(digits.take(field.len() - start) =~= digits);
    Some(value)
}

/// Reads a date written as `MM-DD-YYYY` or `MM/DD/YYYY`.
pub fn validate_date(date_string: String) -> (date: Result<UtcDate, InvalidDate>)
    ensures
        match date {
            Ok(d) => parsed_date(date_string@) == Some(d) && d.wf(),
            Err(_) => parsed_date(date_string@) is None,
        },
{
    let chars = chars_of(date_string.as_str());
    let mut parts = split_fields(&chars, '-');
    if parts.len() != 3 {
        parts = split_fields(&chars, '/');
    }
    if parts.len() != 3 {
        return Err(InvalidDate);
    }
    let month = match parse_unsigned(&parts[0], 255) {
        Some(m) => m as u8,
        None => {
            return Err(InvalidDate);
        },
    };
    let day = match parse_unsigned(&parts[1], 255) {
        Some(d) => d as u8,
        None => {
            return Err(InvalidDate);
        },
    };
    let year = match parse_unsigned(&parts[2], 65535) {
        Some(y) => y as u16,
        None => {
            return Err(InvalidDate);
        },
    };
    if calendar_has(year, month, day) {
        Ok(UtcDate { year, month, day })
    } else {
        Err(InvalidDate)
    }
}

/// Checks the arguments of a run: that the report exists, then the start
/// date, then the end date.
pub fn validate_args(
    html_exists: bool,
    start_date_string: String,
    end_date_string: String,
) -> (dates: Result<(UtcDate, UtcDate), ArgumentError>)
    ensures
        dates == validated(html_exists, start_date_string@, end_date_string@),
        !html_exists ==> dates == Err::<(UtcDate, UtcDate), ArgumentError>(
            ArgumentError::FileDoesNotExist,
        ),
        dates is Ok ==> dates->Ok_0.0.wf() && dates->Ok_0.1.wf(),
{
    if !html_exists {
        return Err(ArgumentError::FileDoesNotExist);
    }
    let start = match validate_date(start_date_string) {
        Ok(date) => date,
        Err(_) => {
            return Err(ArgumentError::InvalidDate);
        },
    };
    let end = match validate_date(end_date_string) {
        Ok(date) => date,
        Err(_) => {
            return Err(ArgumentError::InvalidDate);
        },
    };
    Ok((start, end))
}

} // verus!
