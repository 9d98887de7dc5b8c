//! Calendar dates, and the date a number of months after another.

use vstd::prelude::*;

verus! {

/// The last year that a date may lie in.
pub const MAX_YEAR: i32 = 262142;

/// The first year that a date may lie in.
pub const MIN_YEAR: i32 = -262143;

/// A day of the proleptic Gregorian calendar.
#[derive(Clone, Copy, Debug, PartialEq, Eq, Structural)]
pub struct Date {
    pub year: i32,
    /// 1 for January to 12 for December
    pub month: u32,
    /// 1 to the length of the month
    pub day: u32,
}

/// Whether a year has a 29th of February.
pub open spec fn is_leap_year(year: int) -> bool {
    year % 4 == 0 && (year % 100 != 0 || year % 400 == 0)
}

/// The number of days of a month, 1 to 12, of a year.
pub open spec fn days_in_month(year: int, month: int) -> int {
    if month == 2 {
        if is_leap_year(year) {
            29
        } else {
            28
        }
    } else if month == 4 || month == 6 || month == 9 || month == 11 {
        30
    } else {
        31
    }
}

impl Date {
    /// Whether the three numbers name a day that exists, in a year within
    /// range.
    pub open spec fn is_valid(self) -> bool {
        &&& MIN_YEAR <= self.year <= MAX_YEAR
        &&& 1 <= self.month <= 12
        &&& 1 <= self.day <= days_in_month(self.year as int, self.month as int)
    }
}

/// The date a number of months after a date: the same day of the month that
/// lies so many months on, or the last day of that month where it is
/// shorter.  There is none where the date is not valid or the year would
/// leave the range.
pub open spec fn months_later(date: Date, months: u32) -> Option<Date> {
    let count = date.year * 12 + (date.month - 1) + months;
    let year = count / 12;
    let month = count % 12 + 1;
    let longest = days_in_month(year, month);
    if !date.is_valid() || year > MAX_YEAR {
        None
    } else {
        Some(
            Date {
                year: year as i32,
                month: month as u32,
                day: if date.day > longest {
                    longest as u32
                } else {
                    date.day
                },
            },
        )
    }
}

/// `NaiveDate::checked_add_months` of chrono, between `from_ymd_opt` and the
/// getters of `Datelike`.  The contract says what chrono documents: the
/// months are added to the year and month, the day is clamped to the length
/// of the month reached, and the result is `None` where the start is no
/// calendar date or the end lies beyond chrono's last year.
#[verifier::external_body]
fn add_months(date: Date, months: u32) -> (r: Option<Date>)
    ensures
        r == months_later(date, months),
{
    let start = chrono::NaiveDate::from_ymd_opt(date.year, date.month, date.day)?;
    let end = start.checked_add_months(chrono::Months::new(months))?;
    Some(
        Date {
            year: chrono::Datelike::year(&end),
            month: chrono::Datelike::month(&end),
            day: chrono::Datelike::day(&end),
        },
    )
}

/// The date on which a loan taken out today is paid off, after the given
/// number of monthly payments.
pub fn payoff_date(today: Date, payments: u32) -> (r: Option<Date>)
    ensures
        r == months_later(today, payments),
        r is Some ==> r.unwrap().is_valid(),
{
    let r = add_months(today, payments);
    proof {
        lemma_months_later_is_valid(today, payments);
    }
    r
}

/// A date some months after a valid date is a valid date, not before it.
pub proof fn lemma_months_later_is_valid(date: Date, months: u32)
    ensures
        match months_later(date, months) {
            Some(later) => {
                &&& later.is_valid()
                &&& later.year * 12 + later.month == date.year * 12 + date.month + months
                &&& later.day <= date.day
                &&& later.day == date.day || later.day == days_in_month(
                    later.year as int,
                    later.month as int,
                )
            },
            None => !date.is_valid() || (date.year * 12 + (date.month - 1) + months) / 12
                > MAX_YEAR,
        },
        months == 0 && date.is_valid() ==> months_later(date, months) == Some(date),
{
}

} // verus!
