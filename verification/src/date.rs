//! Calendar dates, as they stand in bounds and in reports.

use crate::text::{law_padded_reads_back, lemma_padded_fits, number_of, padded_text};
use vstd::prelude::*;

verus! {

/// The first year that a date can have.
pub const MIN_YEAR: i32 = -262143;

/// The last year that a date can have.
pub const MAX_YEAR: i32 = 262142;

/// A day of the proleptic Gregorian calendar.
#[derive(Clone, Copy, Debug, PartialEq, Eq, Structural)]
pub struct Date {
    year: i32,
    month: u32,
    day: u32,
}

/// Whether the year has a 29th of February.
pub open spec fn leap_year(year: int) -> bool {
    year % 4 == 0 && (year % 100 != 0 || year % 400 == 0)
}

/// How many days the month has.
pub open spec fn days_in_month(year: int, month: int) -> int {
    if month == 2 {
        if leap_year(year) {
            29
        } else {
            28
        }
    } else if month == 4 || month == 6 || month == 9 || month == 11 {
        30
    } else {
        31
    }
}

/// Whether there is such a day, in a year that a date can have.
pub open spec fn calendar_day(year: int, month: int, day: int) -> bool {
    &&& MIN_YEAR <= year <= MAX_YEAR
    &&& 1 <= month <= 12
    &&& 1 <= day <= days_in_month(year, month)
}

/// The year as it is written in a date: at least four digits, and a sign where the year is
/// not one of 0 to 9999.
pub open spec fn year_text(year: int) -> Seq<char> {
    if year < 0 {
        "-"@ + padded_text((-year) as nat, 4)
    } else if year > 9999 {
        "+"@ + padded_text(year as nat, 4)
    } else {
        padded_text(year as nat, 4)
    }
}

/// The date as year, month and day.
pub open spec fn day_text(year: int, month: int, day: int) -> Seq<char> {
    year_text(year) + "-"@ + padded_text(month as nat, 2) + "-"@ + padded_text(day as nat, 2)
}

/// Whether there is such a day, in a year that a date can have.
fn day_exists(year: i32, month: u32, day: u32) -> (result: bool)
    ensures
        result == calendar_day(year as int, month as int, day as int),
{
    if year < MIN_YEAR || year > MAX_YEAR || month < 1 || month > 12 || day < 1 {
        return false;
    }
    // As many years later as leave the calendar the same.
    let later: u32 = (year + 400_000) as u32;
    let leap = later % 4 == 0 && (later % 100 != 0 || later % 400 == 0);
    let days: u32 = if month == 2 {
        if leap {
            29
        } else {
            28
        }
    } else if month == 4 || month == 6 || month == 9 || month == 11 {
        30
    } else {
        31
    };
    day <= days
}

/// `chrono::NaiveDate::format`, with the format `%Y-%m-%d`, of the date that
/// `chrono::NaiveDate::from_ymd_opt` gives for a day that exists: the year with at least four
/// digits, and with a sign where it is not one of 0 to 9999; the month and the day with two
/// digits.
#[verifier::external_body]
fn format_day(year: i32, month: u32, day: u32) -> (result: String)
    requires
        calendar_day(year as int, month as int, day as int),
    ensures
        result@ == day_text(year as int, month as int, day as int),
{
    chrono::NaiveDate::from_ymd_opt(year, month, day).unwrap().format("%Y-%m-%d").to_string()
}

/// `chrono::Utc::now`, of which the date is taken: some day of the calendar. Which day it is
/// depends on the clock of the machine, so nothing more is said of it. The call panics where
/// the clock is before 1970, or beyond the range of `chrono`.
#[verifier::external_body]
fn current_day() -> (result: (i32, u32, u32))
    ensures
        calendar_day(result.0 as int, result.1 as int, result.2 as int),
{
    let date = chrono::Utc::now().date_naive();
    (
        chrono::Datelike::year(&date),
        chrono::Datelike::month(&date),
        chrono::Datelike::day(&date),
    )
}

impl Date {
    /// Every date is a day of the calendar.
    #[verifier::type_invariant]
    spec fn on_calendar(self) -> bool {
        calendar_day(self.year as int, self.month as int, self.day as int)
    }

    /// The year, the month from 1 to 12, and the day of the month from 1.
    pub closed spec fn year_month_day(self) -> (int, int, int) {
        (self.year as int, self.month as int, self.day as int)
    }

    /// Whether there is such a day, which is so of every date that code holds.
    pub open spec fn valid(self) -> bool {
        let (year, month, day) = self.year_month_day();
        calendar_day(year, month, day)
    }

    /// Whether the clock of the machine can give this date, read by [`current_day`].
    pub closed spec fn read_from_clock(self) -> bool {
        exists|day: (i32, u32, u32)| #[trigger]
            call_ensures(current_day, (), day) && self.year_month_day() == (
                day.0 as int,
                day.1 as int,
                day.2 as int,
            )
    }

    /// The date in the form `2021-03-09`.
    pub open spec fn text(self) -> Seq<char> {
        let (year, month, day) = self.year_month_day();
        day_text(year, month, day)
    }

    /// The date with the given year, month and day, where there is such a day.
    pub fn new(year: i32, month: u32, day: u32) -> (result: Option<Date>)
        ensures
            match result {
                Some(date) => calendar_day(year as int, month as int, day as int)
                    && date.year_month_day() == (year as int, month as int, day as int),
                None => !calendar_day(year as int, month as int, day as int),
            },
    {
        if day_exists(year, month, day) {
            Some(Date { year, month, day })
        } else {
            None
        }
    }

    /// Today's date in UTC, by the clock of the machine: some day of the calendar.
    ///
    /// Panics where the clock is before 1970, or beyond the last year that a date can have.
    pub fn today() -> (result: Date)
        ensures
            result.valid(),
            result.read_from_clock(),
    {
        let clock = current_day;
        let (year, month, day) = clock();
        Date { year, month, day }
    }

    /// The date in the form `2021-03-09`.
    pub fn format(&self) -> (result: String)
        ensures
            result@ == self.text(),
    {
        proof {
            use_type_invariant(self);
        }
        format_day(self.year, self.month, self.day)
    }

    /// Whether two dates are the same day.
    pub fn same(&self, other: &Date) -> (result: bool)
        ensures
            result == (self == other),
    {
        self.year == other.year && self.month == other.month && self.day == other.day
    }
}

/// Which days there are: the months have 31 days but for those that have 30, and February, which
/// has 28, or 29 in each fourth year that does not end a century, or that ends a fourth one.
pub proof fn law_days_of_the_calendar(year: int, month: int, day: int)
    ensures
        calendar_day(year, month, day) <==> {
            &&& -262143 <= year <= 262142
            &&& 1 <= month <= 12
            &&& 1 <= day <= 31
            &&& day == 31 ==> month != 2 && month != 4 && month != 6 && month != 9 && month != 11
            &&& day == 30 ==> month != 2
            &&& day == 29 && month == 2 ==> year % 400 == 0 || year % 4 == 0 && year % 100 != 0
        },
        calendar_day(year, month, day) && -262143 <= year + 400 <= 262142 ==> calendar_day(
            year + 400,
            month,
            day,
        ),
{
}

/// A date of a year with four digits is written with ten characters, from which the year, the
/// month and the day can be read.
pub proof fn law_date_reads_back(year: int, month: int, day: int)
    requires
        calendar_day(year, month, day),
        0 <= year <= 9999,
    ensures
        ({
            let text = day_text(year, month, day);
            &&& text.len() == 10
            &&& number_of(text.subrange(0, 4)) == year
            &&& text[4] == '-'
            &&& number_of(text.subrange(5, 7)) == month
            &&& text[7] == '-'
            &&& number_of(text.subrange(8, 10)) == day
        }),
{
    let text = day_text(year, month, day);
    let y = padded_text(year as nat, 4);
    let m = padded_text(month as nat, 2);
    let d = padded_text(day as nat, 2);
    reveal_strlit("-");
    law_padded_reads_back(year as nat, 4);
    law_padded_reads_back(month as nat, 2);
    law_padded_reads_back(day as nat, 2);
    lemma_padded_fits(year as nat, 4);
    lemma_padded_fits(month as nat, 2);
    lemma_padded_fits(day as nat, 2);
    assert(text.subrange(0, 4) =~= y);
    assert(text.subrange(5, 7) =~= m);
    assert(text.subrange(8, 10) =~= d);
}

/// The year of any other date has a sign, and then at least four digits from which it can be
/// read.
pub proof fn law_signed_year_reads_back(year: int)
    requires
        year < 0 || year > 9999,
    ensures
        year_text(year).len() >= 5,
        year_text(year)[0] == if year < 0 {
            '-'
        } else {
            '+'
        },
        number_of(year_text(year).skip(1)) == if year < 0 {
            -year
        } else {
            year
        },
{
    reveal_strlit("-");
    reveal_strlit("+");
    let n = if year < 0 {
        (-year) as nat
    } else {
        year as nat
    };
    law_padded_reads_back(n, 4);
    assert(year_text(year).skip(1) =~= padded_text(n, 4));
}

/// A date is written as its year, its month and its day, with a hyphen between each two.
pub proof fn law_date_has_three_parts(date: Date)
    ensures
        date.valid() <==> calendar_day(
            date.year_month_day().0,
            date.year_month_day().1,
            date.year_month_day().2,
        ),
        date.text() == year_text(date.year_month_day().0) + "-"@ + padded_text(
            date.year_month_day().1 as nat,
            2,
        ) + "-"@ + padded_text(date.year_month_day().2 as nat, 2),
{
}

} // verus!
