//! Calendar dates as plain values: the library's model of what the
//! retention bookkeeping reads out of its date-time crate. Daily file names
//! carry dates in the canonical `YYYY-MM-DD` form that the application
//! itself writes, and this module parses and orders exactly that form.

use vstd::prelude::*;
use vstd::string::StrSliceExecFns;

verus! {

/// A calendar date.
#[derive(Clone, Copy, Debug, PartialEq, Eq, Structural)]
pub struct Date {
    pub year: u32,
    pub month: u32,
    pub day: u32,
}

/// Leap years of the Gregorian calendar.
pub open spec fn is_leap_year(year: int) -> bool {
    year % 4 == 0 && (year % 100 != 0 || year % 400 == 0)
}

/// How many days the given month of the given year has.
pub open spec fn days_in_month(year: int, month: int) -> int {
    if month == 2 {
        if is_leap_year(year) {
            29
        } else {
            28
        }
    } else if month == 4 || month == 6 || month == 9 || month == 11 {
        30
    } else {
        31
    }
}

/// How many days the given month of the given year has.
pub fn days_in_month_count(year: u32, month: u32) -> (r: u32)
    requires
        1 <= month <= 12,
    ensures
        r as int == days_in_month(year as int, month as int),
{
    if month == 2 {
        if year % 4 == 0 && (year % 100 != 0 || year % 400 == 0) {
            29
        } else {
            28
        }
    } else if month == 4 || month == 6 || month == 9 || month == 11 {
        30
    } else {
        31
    }
}

impl Date {
    /// A real calendar date with a four-digit year.
    pub open spec fn valid(self) -> bool {
        &&& self.year <= 9999
        &&& 1 <= self.month <= 12
        &&& 1 <= self.day <= days_in_month(self.year as int, self.month as int)
    }

    /// Strictly earlier in time.
    pub open spec fn before_spec(self, other: Date) -> bool {
        ||| self.year < other.year
        ||| (self.year == other.year && self.month < other.month)
        ||| (self.year == other.year && self.month == other.month && self.day < other.day)
    }

    /// Whether this date is strictly earlier than the other.
    pub fn before(&self, other: &Date) -> (r: bool)
        ensures
            r == self.before_spec(*other),
    {
        if self.year != other.year {
            self.year < other.year
        } else if self.month != other.month {
            self.month < other.month
        } else {
            self.day < other.day
        }
    }
}

/// A decimal digit.
pub open spec fn is_digit(c: char) -> bool {
    48 <= c as int && c as int <= 57
}

/// The value of a decimal digit.
pub open spec fn digit_value(c: char) -> int {
    c as int - 48
}

/// The text has the shape `YYYY-MM-DD`: ten characters, digits in the date
/// positions and dashes between them.
pub open spec fn iso_date_shape(s: Seq<char>) -> bool {
    &&& s.len() == 10
    &&& is_digit(s[0]) && is_digit(s[1]) && is_digit(s[2]) && is_digit(s[3])
    &&& s[4] == '-'
    &&& is_digit(s[5]) && is_digit(s[6])
    &&& s[7] == '-'
    &&& is_digit(s[8]) && is_digit(s[9])
}

/// The date that a text of shape `YYYY-MM-DD` spells out.
pub open spec fn date_of_digits(s: Seq<char>) -> Date {
    Date {
        year: (1000 * digit_value(s[0]) + 100 * digit_value(s[1]) + 10 * digit_value(s[2])
            + digit_value(s[3])) as u32,
        month: (10 * digit_value(s[5]) + digit_value(s[6])) as u32,
        day: (10 * digit_value(s[8]) + digit_value(s[9])) as u32,
    }
}

/// What parsing a date text returns: the date, when the text has the
/// canonical `YYYY-MM-DD` shape and names a real calendar date; nothing
/// otherwise.
pub open spec fn parsed_date(s: Seq<char>) -> Option<Date> {
    if iso_date_shape(s) && date_of_digits(s).valid() {
        Some(date_of_digits(s))
    } else {
        None
    }
}

/// Reads one digit of a date text.
fn digit_at(text: &str, i: usize) -> (r: Option<u32>)
    requires
        i < text@.len(),
    ensures
        match r {
            Some(v) => is_digit(text@[i as int]) && v as int == digit_value(text@[i as int]),
            None => !is_digit(text@[i as int]),
        },
{
    let c = text.get_char(i) as u32;
    if 48 <= c && c <= 57 {
        Some(c - 48)
    } else {
        None
    }
}

/// Parses a date in the canonical `YYYY-MM-DD` form, rejecting any other
/// shape and any combination that is not a real calendar date.
pub fn parse_iso_date(text: &str) -> (r: Option<Date>)
    ensures
        r == parsed_date(text@),
{
    if text.unicode_len() != 10 {
        return None;
    }
    if text.get_char(4) != '-' || text.get_char(7) != '-' {
        return None;
    }
    let d0 = match digit_at(text, 0) { Some(v) => v, None => { return None; } };
    let d1 = match digit_at(text, 1) { Some(v) => v, None => { return None; } };
    let d2 = match digit_at(text, 2) { Some(v) => v, None => { return None; } };
    let d3 = match digit_at(text, 3) { Some(v) => v, None => { return None; } };
    let d5 = match digit_at(text, 5) { Some(v) => v, None => { return None; } };
    let d6 = match digit_at(text, 6) { Some(v) => v, None => { return None; } };
    let d8 = match digit_at(text, 8) { Some(v) => v, None => { return None; } };
    let d9 = match digit_at(text, 9) { Some(v) => v, None => { return None; } };
    let date = Date {
        year: 1000 * d0 + 100 * d1 + 10 * d2 + d3,
        month: 10 * d5 + d6,
        day: 10 * d8 + d9,
    };
    if date.month < 1 || date.month > 12 {
        return None;
    }
    if date.day < 1 || date.day > days_in_month_count(date.year, date.month) {
        return None;
    }
    Some(date)
}

} // verus!
