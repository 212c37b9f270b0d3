//! Calendar dates in the proleptic Gregorian calendar, as `chrono::NaiveDate`
//! holds them, with their `YYYY-MM-DD` text.

use vstd::prelude::*;
use chrono::NaiveDate;
use crate::text::{digits, digit_char, zero_pad_left};

verus! {

/// The earliest year that `NaiveDate` holds.
pub const MIN_YEAR: i32 = -262143;

/// The latest year that `NaiveDate` holds.
pub const MAX_YEAR: i32 = 262142;

/// Leap years of the proleptic Gregorian calendar.
pub open spec fn is_leap_year(y: int) -> bool {
    y % 4 == 0 && (y % 100 != 0 || y % 400 == 0)
}

/// The number of days of month `m` in year `y`.
pub open spec fn days_in_month(y: int, m: int) -> int {
    if m == 2 {
        if is_leap_year(y) {
            29
        } else {
            28
        }
    } else if m == 4 || m == 6 || m == 9 || m == 11 {
        30
    } else {
        31
    }
}

/// Whether year, month and day name a date that `NaiveDate` can hold.
pub open spec fn valid_ymd(y: int, m: int, d: int) -> bool {
    MIN_YEAR <= y <= MAX_YEAR && 1 <= m <= 12 && 1 <= d <= days_in_month(y, m)
}

/// Two decimal digits of a number below 100.
pub open spec fn two_digits(n: int) -> Seq<char> {
    seq![digit_char(n / 10), digit_char(n % 10)]
}

/// The year as `NaiveDate` prints it: four digits for years 0 to 9999,
/// otherwise a sign and at least four digits.
pub open spec fn year_text(y: int) -> Seq<char> {
    if 0 <= y <= 9999 {
        zero_pad_left(digits(y as nat), 4)
    } else if y < 0 {
        seq!['-'] + zero_pad_left(digits((-y) as nat), 4)
    } else {
        seq!['+'] + zero_pad_left(digits(y as nat), 4)
    }
}

/// The `%Y-%m-%d` text of a date.
pub open spec fn date_text(y: int, m: int, d: int) -> Seq<char> {
    year_text(y) + seq!['-'] + two_digits(m) + seq!['-'] + two_digits(d)
}

/// A calendar date.
#[derive(Clone, Copy)]
pub struct Date {
    year: i32,
    month: u32,
    day: u32,
}

impl Date {
    #[verifier::type_invariant]
    closed spec fn inv(self) -> bool {
        valid_ymd(self.year as int, self.month as int, self.day as int)
    }

    /// The year.
    pub closed spec fn y(self) -> int {
        self.year as int
    }

    /// The month, 1 to 12.
    pub closed spec fn m(self) -> int {
        self.month as int
    }

    /// The day of the month.
    pub closed spec fn d(self) -> int {
        self.day as int
    }

    /// The `%Y-%m-%d` text of this date.
    pub open spec fn text(self) -> Seq<char> {
        date_text(self.y(), self.m(), self.d())
    }

    /// The date with the given year, month and day; `None` where there is no
    /// such date (`NaiveDate::from_ymd_opt`).
    pub fn from_ymd(year: i32, month: u32, day: u32) -> (r: Option<Date>)
        ensures
            r is Some <==> valid_ymd(year as int, month as int, day as int),
            r matches Some(x) ==> x.y() == year && x.m() == month && x.d() == day,
    {
        if date_exists(year, month, day) {
            Some(Date { year, month, day })
        } else {
            None
        }
    }

    /// The year.
    pub fn year(&self) -> (r: i32)
        ensures
            r as int == self.y(),
    {
        self.year
    }

    /// The month.
    pub fn month(&self) -> (r: u32)
        ensures
            r as int == self.m(),
    {
        self.month
    }

    /// The day of the month.
    pub fn day(&self) -> (r: u32)
        ensures
            r as int == self.d(),
    {
        self.day
    }
}

/// `NaiveDate::from_ymd_opt(..).is_some()`. Claims: a date exists exactly when
/// the year is in chrono's range and month and day name a day of the
/// proleptic Gregorian calendar.
#[verifier::external_body]
fn date_exists(year: i32, month: u32, day: u32) -> (r: bool)
    ensures
        r == valid_ymd(year as int, month as int, day as int),
{
    NaiveDate::from_ymd_opt(year, month, day).is_some()
}

/// What `NaiveDate::parse_from_str(s, "%Y-%m-%d")` returns: the year, month
/// and day, or the text of the parse error.
pub uninterp spec fn naive_date_parse(s: Seq<char>) -> Result<(int, int, int), Seq<char>>;

/// The (year, month, day) of a parse result.
pub open spec fn parsed_date_view(r: Result<Date, String>) -> Result<(int, int, int), Seq<char>> {
    match r {
        Ok(d) => Ok((d.y(), d.m(), d.d())),
        Err(e) => Err(e@),
    }
}

/// A successful parse of the date (y, m, d).
pub open spec fn parsed_ok(y: int, m: int, d: int) -> Result<(int, int, int), Seq<char>> {
    Ok((y, m, d))
}

/// `NaiveDate::parse_from_str(s, "%Y-%m-%d")`, with the error turned into its
/// text. Claims: the result is `naive_date_parse(s)`, and the text that
/// `NaiveDate` prints for a date parses back to that date.
#[verifier::external_body]
pub(crate) fn parse_date(s: &str) -> (r: Result<Date, String>)
    ensures
        parsed_date_view(r) == naive_date_parse(s@),
        forall|y: int, m: int, d: int|
            valid_ymd(y, m, d) && s@ == #[trigger] date_text(y, m, d) ==> parsed_date_view(r)
                == parsed_ok(y, m, d),
{
    match NaiveDate::parse_from_str(s, "%Y-%m-%d") {
        Ok(d) => Ok(Date { year: chrono::Datelike::year(&d), month: chrono::Datelike::month(&d), day: chrono::Datelike::day(&d) }),
        Err(e) => Err(e.to_string()),
    }
}

/// `Display` of `NaiveDate`. Claims: the text is `date_text` of the date.
#[verifier::external_body]
pub(crate) fn date_to_string(d: &Date) -> (r: String)
    ensures
        r@ == d.text(),
{
    NaiveDate::from_ymd_opt(d.year, d.month, d.day).unwrap().to_string()
}

} // verus!
