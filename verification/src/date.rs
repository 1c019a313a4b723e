//! Calendar days, counted in the proleptic Gregorian calendar.

use chrono::Datelike;
use vstd::prelude::*;

verus! {

/// The number of the earliest day that the calendar can name
/// (January 1 of the year 262144 BCE).
pub const FIRST_DAY: i32 = -95_746_129;

/// The number of the latest day that the calendar can name
/// (December 31 of the year 262142 CE).
pub const LAST_DAY: i32 = 95_745_399;

/// Whether the calendar can name the day with the number `days`.
pub open spec fn nameable(days: int) -> bool {
    FIRST_DAY <= days <= LAST_DAY
}

/// The number of the day before day `days`, where the calendar can name both.
pub open spec fn day_before(days: int) -> Option<int> {
    if FIRST_DAY < days <= LAST_DAY {
        Some(days - 1)
    } else {
        None
    }
}

/// A calendar day, held as its number: January 1 of the year 1 is day 1,
/// the day before it day 0, and so on in both directions.
///
/// Its view is that number.
#[derive(Clone, Copy, Debug, PartialEq, Eq, Structural)]
pub struct Date {
    days: i32,
}

impl View for Date {
    type V = int;

    closed spec fn view(&self) -> int {
        self.days as int
    }
}

/// `chrono::NaiveDate::checked_sub_days` with one day, between
/// `NaiveDate::from_num_days_from_ce_opt` and `Datelike::num_days_from_ce`.
///
/// The calendar names the days `FIRST_DAY..=LAST_DAY`; a number outside
/// them makes no date, and the first of them has no day before it. In every
/// other case the day before has the number one less.
#[verifier::external_body]
fn previous_day_number(days: i32) -> (r: Option<i32>)
    ensures
        r == (match day_before(days as int) {
            Some(d) => Some(d as i32),
            None => None,
        }),
{
    let date = chrono::NaiveDate::from_num_days_from_ce_opt(days)?;
    let previous = date.checked_sub_days(chrono::Days::new(1))?;
    Some(previous.num_days_from_ce())
}

/// `chrono::Local::now` and `DateTime::date_naive`: the current day in the
/// machine's time zone, as `Datelike::num_days_from_ce` counts it.
///
/// Which day it is depends on the clock and the time zone, and the call
/// does not return on a clock that reads before 1970 or on time zone data
/// that gives no local time. Where it returns, the date is between
/// `NaiveDate::MIN` and `NaiveDate::MAX`, so the number is that of a day
/// the calendar can name; no more is claimed.
#[verifier::external_body]
fn current_day_number() -> (r: i32)
    ensures
        nameable(r as int),
{
    chrono::Local::now().date_naive().num_days_from_ce()
}

impl Date {
    /// The day with the given number.
    pub fn from_days(days: i32) -> (r: Date)
        ensures
            r@ == days,
    {
        Date { days }
    }

    /// The number of the day.
    pub fn days(&self) -> (r: i32)
        ensures
            r == self@,
    {
        self.days
    }

    /// The day before this one; none where the calendar cannot name this
    /// day or the one before it.
    pub fn previous(&self) -> (r: Option<Date>)
        ensures
            match day_before(self@) {
                Some(d) => r is Some && r->0@ == d,
                None => r is None,
            },
    {
        match previous_day_number(self.days) {
            Some(days) => Some(Date { days }),
            None => None,
        }
    }

    /// The current day in the machine's time zone, as the clock has it:
    /// whichever day that is, it is one that the calendar can name.
    pub(crate) fn today() -> (r: Date)
        ensures
            nameable(r@),
    {
        Date { days: current_day_number() }
    }

    /// Whether `self` is an earlier day than `other`.
    pub fn is_before(&self, other: &Date) -> (r: bool)
        ensures
            r == (self@ < other@),
    {
        self.days < other.days
    }
}

} // verus!
