//! Calendar dates, as three numbers, and the two calls into `chrono` that make them.
//!
//! The two functions at the end of this file are not proved. Each makes one call into
//! `chrono`, and its contract claims what is said above it.
use vstd::prelude::*;
use chrono::{DateTime, Datelike, NaiveDate};

verus! {

/// A day of the proleptic Gregorian calendar.
#[derive(Debug, Clone, Copy, PartialEq, Eq, Structural)]
pub struct Date {
    pub year: i32,
    /// From 1, for January.
    pub month: u32,
    /// From 1.
    pub day: u32,
}

impl DeepView for Date {
    type V = Date;

    open spec fn deep_view(&self) -> Date {
        *self
    }
}

impl Date {
    /// The month and the day are within the bounds that a calendar allows.
    pub open spec fn in_range(self) -> bool {
        1 <= self.month <= 12 && 1 <= self.day <= 31
    }
}

/// The date that `NaiveDate::parse_from_str` reads from `text` under `format`: `None`
/// where it reports an error.
pub uninterp spec fn parsed_date(text: Seq<char>, format: Seq<char>) -> Option<Date>;

/// The date, in UTC, on which second `seconds` after the start of 1970 falls, as
/// `DateTime::from_timestamp` gives it: `None` where that is beyond the years it can hold.
pub uninterp spec fn timestamp_date(seconds: int) -> Option<Date>;

/// `NaiveDate::parse_from_str`, with `Datelike::year`, `month` and `day` of what it
/// returns. Nothing is proved of it. It claims that the outcome depends on the two
/// texts alone, and that the month and the day lie in the ranges `chrono` documents for
/// them (1 to 12, 1 to 31).
#[verifier::external_body]
pub(crate) fn parse_date(text: &str, format: &str) -> (r: Option<Date>)
    ensures
        r == parsed_date(text@, format@),
        r matches Some(date) ==> date.in_range(),
{
    NaiveDate::parse_from_str(text, format).ok().map(
        |d| Date { year: d.year(), month: d.month(), day: d.day() },
    )
}

/// `DateTime::from_timestamp` with no nanoseconds, with `Datelike::year`, `month` and
/// `day` of what it returns. Nothing is proved of it. It claims that the outcome depends
/// on `seconds` alone, and that the month and the day lie in the ranges `chrono`
/// documents for them.
#[verifier::external_body]
pub(crate) fn date_of_timestamp(seconds: i64) -> (r: Option<Date>)
    ensures
        r == timestamp_date(seconds as int),
        r matches Some(date) ==> date.in_range(),
{
    DateTime::from_timestamp(seconds, 0).map(
        |d| Date { year: d.year(), month: d.month(), day: d.day() },
    )
}

} // verus!
