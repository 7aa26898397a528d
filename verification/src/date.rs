//! Calendar dates, with their text form `YYYY-MM-DD`.

use chrono::{Datelike, Local, NaiveDate};
use vstd::prelude::*;
use crate::decimal::{is_digit, lemma_nat_text, nat_text};
use crate::text::is_field;

verus! {

/// The first year that a date can have.
pub open spec fn min_year() -> int {
    -262143
}

/// The last year that a date can have.
pub open spec fn max_year() -> int {
    262142
}

/// Whether `year` is a leap year of the proleptic Gregorian calendar.
pub open spec fn is_leap_year(year: int) -> bool {
    year % 4 == 0 && (year % 100 != 0 || year % 400 == 0)
}

/// The number of days of the month `month` of `year`.
pub open spec fn days_in_month(year: int, month: int) -> int {
    if month == 2 {
        if is_leap_year(year) {
            29
        } else {
            28
        }
    } else if month == 4 || month == 6 || month == 9 || month == 11 {
        30
    } else {
        31
    }
}

/// Whether the day `day` of the month `month` of `year` exists and can be
/// held by a date.
pub open spec fn valid_ymd(year: int, month: int, day: int) -> bool {
    &&& min_year() <= year <= max_year()
    &&& 1 <= month <= 12
    &&& 1 <= day <= days_in_month(year, month)
}

/// The digit string of `n`, with zeros before it where it has fewer than
/// `width` digits.
pub open spec fn padded(n: nat, width: nat) -> Seq<char> {
    let digits = nat_text(n);
    if digits.len() < width {
        Seq::new((width - digits.len()) as nat, |i: int| '0') + digits
    } else {
        digits
    }
}

/// The year as text: four digits or more, after a sign where the year is
/// negative or has more than four digits.
pub open spec fn year_text(year: int) -> Seq<char> {
    if 0 <= year <= 9999 {
        padded(year as nat, 4)
    } else if year < 0 {
        seq!['-'] + padded((-year) as nat, 4)
    } else {
        seq!['+'] + padded(year as nat, 4)
    }
}

/// The date as text: the year, the month in two digits and the day in two
/// digits, with `-` between them.
pub open spec fn ymd_text(year: int, month: int, day: int) -> Seq<char> {
    year_text(year) + seq!['-'] + padded(month as nat, 2) + seq!['-'] + padded(day as nat, 2)
}

/// Padded digits are digits.
pub proof fn lemma_padded(n: nat, width: nat)
    ensures
        forall|i: int| 0 <= i < padded(n, width).len() ==> is_digit(#[trigger] padded(n, width)[i]),
{
    lemma_nat_text(n);
    let digits = nat_text(n);
    let all = padded(n, width);
    assert forall|i: int| 0 <= i < all.len() implies is_digit(#[trigger] all[i]) by {
        if digits.len() < width {
            if i >= width - digits.len() {
                assert(all[i] == digits[i - (width - digits.len())]);
            }
        }
    }
}

/// The text of a date holds no comma and no line feed.
pub proof fn lemma_ymd_text_is_field(year: int, month: int, day: int)
    requires
        0 <= month,
        0 <= day,
    ensures
        is_field(ymd_text(year, month, day)),
{
    let magnitude = if year < 0 {
        (-year) as nat
    } else {
        year as nat
    };
    lemma_padded(magnitude, 4);
    lemma_padded(month as nat, 2);
    lemma_padded(day as nat, 2);
    let y = year_text(year);
    assert forall|i: int| 0 <= i < y.len() implies #[trigger] y[i] != ',' && y[i] != '\n' by {
        if !(0 <= year <= 9999) && i > 0 {
            assert(y[i] == padded(magnitude, 4)[i - 1]);
        }
    }
    let m = padded(month as nat, 2);
    let d = padded(day as nat, 2);
    let t = ymd_text(year, month, day);
    assert forall|i: int| 0 <= i < t.len() implies #[trigger] t[i] != ',' && t[i] != '\n' by {
        if i < y.len() {
            assert(t[i] == y[i]);
        } else if i == y.len() {
        } else if i < y.len() + 1 + m.len() {
            assert(t[i] == m[i - y.len() - 1]);
            assert(is_digit(m[i - y.len() - 1]));
        } else if i == y.len() + 1 + m.len() {
        } else {
            assert(t[i] == d[i - y.len() - m.len() - 2]);
            assert(is_digit(d[i - y.len() - m.len() - 2]));
        }
    }
}

/// The year, month and day that `NaiveDate::parse_from_str` reads from `text`
/// under the format `%Y-%m-%d`, if it reads a date.
pub uninterp spec fn parsed_ymd(text: Seq<char>) -> Option<(int, int, int)>;

/// A day of the proleptic Gregorian calendar.
#[derive(Clone, Copy, Debug, PartialEq, Eq, Structural)]
pub struct Date {
    year: i32,
    month: u32,
    day: u32,
}

impl Date {
    #[verifier::type_invariant]
    spec fn exists_in_calendar(self) -> bool {
        valid_ymd(self.year as int, self.month as int, self.day as int)
    }

    /// The year.
    pub closed spec fn spec_year(self) -> int {
        self.year as int
    }

    /// The month, from 1.
    pub closed spec fn spec_month(self) -> int {
        self.month as int
    }

    /// The day of the month, from 1.
    pub closed spec fn spec_day(self) -> int {
        self.day as int
    }

    /// The date of a year, a month and a day.
    pub closed spec fn from_ymd(ymd: (int, int, int)) -> Date {
        Date { year: ymd.0 as i32, month: ymd.1 as u32, day: ymd.2 as u32 }
    }

    /// The date that `NaiveDate::parse_from_str` reads from `text` under the
    /// format `%Y-%m-%d`, if it reads one.
    pub open spec fn parsed(text: Seq<char>) -> Option<Date> {
        match parsed_ymd(text) {
            Some(ymd) => Some(Date::from_ymd(ymd)),
            None => None,
        }
    }

    /// Year, month and day.
    pub open spec fn ymd(self) -> (int, int, int) {
        (self.spec_year(), self.spec_month(), self.spec_day())
    }

    /// A number that grows with the date: a date is before another exactly
    /// when its rank is the lesser.
    pub open spec fn rank(self) -> int {
        self.spec_year() * 10000 + self.spec_month() * 100 + self.spec_day()
    }

    /// The date as text.
    pub open spec fn text(self) -> Seq<char> {
        ymd_text(self.spec_year(), self.spec_month(), self.spec_day())
    }

    /// The text of a date holds no comma and no line feed.
    pub proof fn lemma_text_is_field(self)
        ensures
            is_field(self.text()),
    {
        lemma_ymd_text_is_field(self.spec_year(), self.spec_month(), self.spec_day());
    }

    /// The date of the day `day` of the month `month` of `year`, if that day
    /// exists and the year is one that a date can have.
    pub fn new(year: i32, month: u32, day: u32) -> (r: Option<Date>)
        ensures
            match r {
                Some(date) => valid_ymd(year as int, month as int, day as int) && date.ymd() == (
                    year as int,
                    month as int,
                    day as int,
                ),
                None => !valid_ymd(year as int, month as int, day as int),
            },
    {
        if year < -262143 || year > 262142 || month < 1 || month > 12 || day < 1 {
            return None;
        }
        let leap: bool = year % 4 == 0 && (year % 100 != 0 || year % 400 == 0);
        let days: u32 = if month == 2 {
            if leap {
                29
            } else {
                28
            }
        } else if month == 4 || month == 6 || month == 9 || month == 11 {
            30
        } else {
            31
        };
        if day > days {
            return None;
        }
        Some(Date { year, month, day })
    }

    /// The year.
    pub fn year(self) -> (year: i32)
        ensures
            year == self.spec_year(),
    {
        self.year
    }

    /// The month, from 1.
    pub fn month(self) -> (month: u32)
        ensures
            month == self.spec_month(),
    {
        self.month
    }

    /// The day of the month, from 1.
    pub fn day(self) -> (day: u32)
        ensures
            day == self.spec_day(),
    {
        self.day
    }

    /// Whether the two dates are the same day.
    pub fn same_day(self, other: Date) -> (same: bool)
        ensures
            same == (self == other),
            same == (self.rank() == other.rank()),
    {
        proof {
            use_type_invariant(self);
            use_type_invariant(other);
        }
        self.year == other.year && self.month == other.month && self.day == other.day
    }

    /// Whether the date is before `other`.
    pub fn is_before(self, other: Date) -> (before: bool)
        ensures
            before == (self.rank() < other.rank()),
            (self.rank() == other.rank()) == (self == other),
    {
        proof {
            use_type_invariant(self);
            use_type_invariant(other);
        }
        if self.year != other.year {
            self.year < other.year
        } else if self.month != other.month {
            self.month < other.month
        } else {
            self.day < other.day
        }
    }

    /// Reads a date from `text` as `NaiveDate::parse_from_str` does under the
    /// format `%Y-%m-%d`.
    pub fn parse(text: &str) -> (r: Option<Date>)
        ensures
            r == Date::parsed(text@),
            match parsed_ymd(text@) {
                Some(ymd) => r matches Some(date) && date.ymd() == ymd,
                None => r is None,
            },
    {
        read_date(text)
    }

    /// The date as text.
    pub fn to_text(self) -> (text: String)
        ensures
            text@ == self.text(),
            parsed_ymd(text@) == Some(self.ymd()),
            Date::parsed(text@) == Some(self),
    {
        write_date(self)
    }

    /// The date of today on this machine's clock, in its time zone. Which
    /// day that is depends on the clock; whatever it is, it is a day that
    /// exists in the calendar.
    pub fn today() -> (date: Date)
        ensures
            valid_ymd(date.spec_year(), date.spec_month(), date.spec_day()),
    {
        let date = current_date();
        proof {
            use_type_invariant(date);
        }
        date
    }
}

/// Calls `NaiveDate::parse_from_str` with the format `%Y-%m-%d`. The result
/// is the date that it reads, which is a day that exists, or `None` where it
/// fails.
#[verifier::external_body]
fn read_date(text: &str) -> (r: Option<Date>)
    ensures
        match parsed_ymd(text@) {
            Some(ymd) => r matches Some(date) && date.ymd() == ymd,
            None => r is None,
        },
{
    match NaiveDate::parse_from_str(text, "%Y-%m-%d") {
        Ok(d) => Some(Date { year: d.year(), month: d.month(), day: d.day() }),
        Err(_) => None,
    }
}

/// Calls `NaiveDate::format` with the format `%Y-%m-%d`. The result is the
/// year in four digits or more, signed where it is negative or longer, then
/// the month and the day in two digits each, with `-` between them; and
/// `NaiveDate::parse_from_str` reads the date back from it.
#[verifier::external_body]
fn write_date(date: Date) -> (text: String)
    ensures
        text@ == date.text(),
        parsed_ymd(text@) == Some(date.ymd()),
{
    NaiveDate::from_ymd_opt(date.year, date.month, date.day).unwrap().format("%Y-%m-%d").to_string()
}

/// Calls `Local::now` and takes the date of the result with `date_naive`:
/// a day that exists, as every `NaiveDate` is. Which day it is depends on
/// the clock and the time zone, and nothing is claimed of it.
#[verifier::external_body]
fn current_date() -> (date: Date) {
    let d = Local::now().date_naive();
    Date { year: d.year(), month: d.month(), day: d.day() }
}

} // verus!
