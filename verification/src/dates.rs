//! Calendar dates, and how a commit's timestamp becomes one.

use vstd::prelude::*;

verus! {

/// A day of the calendar, in UTC.
#[derive(Clone, Copy, Debug, PartialEq, Eq, Structural)]
pub struct CalendarDate {
    pub year: i32,
    /// 1 for January to 12 for December.
    pub month: u32,
    /// The day of the month, from 1.
    pub day: u32,
}

impl CalendarDate {
    /// Whether this day comes before `other`: by year, then month, then day.
    pub open spec fn before(self, other: CalendarDate) -> bool {
        self.year < other.year || (self.year == other.year && (self.month < other.month || (
        self.month == other.month && self.day < other.day)))
    }

    /// Whether this day comes before `other`.
    pub fn is_before(&self, other: &CalendarDate) -> (b: bool)
        ensures
            b == self.before(*other),
    {
        self.year < other.year || (self.year == other.year && (self.month < other.month || (
        self.month == other.month && self.day < other.day)))
    }
}

/// An argument that cannot be used.
#[derive(Clone, Copy, Debug, PartialEq, Eq, Structural)]
pub enum ConfigurationError {
    /// The start date is later than the end date.
    InvertedDateRange,
}

/// Whether the bounds form a range: where both are given, the end is not
/// before the start.
pub open spec fn is_date_range(from: Option<CalendarDate>, to: Option<CalendarDate>) -> bool {
    !(from is Some && to is Some && (to->0).before(from->0))
}

/// Accepts the bounds of a scan, each of which may be absent, unless the
/// start is later than the end.
pub fn validate_date_range(from: Option<CalendarDate>, to: Option<CalendarDate>) -> (r: Result<
    (),
    ConfigurationError,
>)
    ensures
        r is Ok <==> is_date_range(from, to),
        r is Err ==> r == Err::<(), ConfigurationError>(ConfigurationError::InvertedDateRange),
{
    match (from, to) {
        (Some(first), Some(last)) => {
            if last.is_before(&first) {
                Err(ConfigurationError::InvertedDateRange)
            } else {
                Ok(())
            }
        },
        _ => Ok(()),
    }
}

/// The UTC day, as year, month and day, on which the instant `secs` seconds
/// after the Unix epoch falls; nothing where the calendar in use cannot
/// represent it.
pub uninterp spec fn utc_date_of_timestamp(secs: i64) -> Option<(i32, u32, u32)>;

/// How the day with these numbers is written in ISO 8601 form (`2024-01-31`);
/// nothing where there is no such day.
pub uninterp spec fn iso_date_text(year: i32, month: u32, day: u32) -> Option<Seq<char>>;

/// The day of `secs` as a `CalendarDate`.
pub open spec fn date_of(secs: i64) -> Option<CalendarDate> {
    match utc_date_of_timestamp(secs) {
        Some((year, month, day)) => Some(CalendarDate { year, month, day }),
        None => None,
    }
}

/// The ISO 8601 text of `date`.
pub open spec fn text_of(date: CalendarDate) -> Option<Seq<char>> {
    iso_date_text(date.year, date.month, date.day)
}

/// Calls `chrono::DateTime::from_timestamp` with no nanoseconds and reads the
/// year, month and day of the UTC date of the result. Trusted: the result is
/// a function of `secs` alone, named `utc_date_of_timestamp`; nothing is
/// claimed about which day it is.
#[verifier::external_body]
pub(crate) fn date_of_timestamp(secs: i64) -> (r: Option<CalendarDate>)
    ensures
        match (r, utc_date_of_timestamp(secs)) {
            (Some(date), Some(ymd)) => date.year == ymd.0 && date.month == ymd.1 && date.day
                == ymd.2,
            (None, None) => true,
            _ => false,
        },
{
    chrono::DateTime::from_timestamp(secs, 0).map(
        |moment| {
            let day = moment.date_naive();
            CalendarDate {
                year: chrono::Datelike::year(&day),
                month: chrono::Datelike::month(&day),
                day: chrono::Datelike::day(&day),
            }
        },
    )
}

/// Calls `chrono::NaiveDate::from_ymd_opt` and writes the date out with its
/// `Display` impl. Trusted: the text is a function of the three numbers
/// alone, named `iso_date_text`, and there is none exactly when chrono knows
/// no such day.
#[verifier::external_body]
pub(crate) fn date_text(date: CalendarDate) -> (r: Option<String>)
    ensures
        match r {
            Some(text) => iso_date_text(date.year, date.month, date.day) == Some(text@),
            None => iso_date_text(date.year, date.month, date.day) is None,
        },
{
    chrono::NaiveDate::from_ymd_opt(date.year, date.month, date.day).map(|day| day.to_string())
}

} // verus!
