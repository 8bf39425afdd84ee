//! The calls into `chrono` and `computus`. Each function here has a contract
//! that is taken on trust: it restates what the called crate documents.

use crate::calendar::{first_day_number, last_day_number, weekday_of, Date};
use chrono::{Datelike, NaiveDate, TimeDelta};
use vstd::prelude::*;

verus! {

/// The date that `chrono::NaiveDate::parse_from_str` reads from `text` under
/// the strftime `pattern`, as (year, month, day); `None` where it reports an
/// error.
pub uninterp spec fn parsed_date(text: Seq<char>, pattern: Seq<char>) -> Option<(int, int, int)>;

/// The ISO 8601 week number that `chrono` gives for a date
/// (`Datelike::iso_week`, then `IsoWeek::week`).
pub uninterp spec fn iso_week_number(year: int, month: int, day: int) -> int;

/// Easter Sunday of `year` as `computus::gregorian_naive` computes it, as
/// (year, month, day); `None` where it reports an error.
pub uninterp spec fn gregorian_easter(year: int) -> Option<(int, int, int)>;

/// Calls `chrono::NaiveDate::parse_from_str`. The contract names the outcome
/// and adds that a date read this way exists in the calendar, with a year
/// that `NaiveDate` supports.
#[verifier::external_body]
pub(crate) fn parse_date(text: &str, pattern: &str) -> (r: Option<Date>)
    ensures
        match r {
            Some(d) => d.wf() && parsed_date(text@, pattern@) == Some(d.ymd()),
            None => parsed_date(text@, pattern@).is_none(),
        },
{
    match NaiveDate::parse_from_str(text, pattern) {
        Ok(d) => Some(Date { year: d.year(), month: d.month(), day: d.day() }),
        Err(_) => None,
    }
}

/// Calls `Datelike::weekday` and `Weekday::num_days_from_monday`. The
/// contract claims the weekday of the proleptic Gregorian calendar, in which
/// 1 January of year 1 is a Monday: the day count that `chrono` documents for
/// `num_days_from_ce`, less one, modulo seven.
#[verifier::external_body]
pub(crate) fn weekday_from_monday(date: &Date) -> (r: u32)
    requires
        date.wf(),
    ensures
        r == weekday_of(date@),
{
    let day = NaiveDate::from_ymd_opt(date.year, date.month, date.day).unwrap();
    day.weekday().num_days_from_monday()
}

/// Calls `Datelike::iso_week` and `IsoWeek::week`. The contract names the
/// result and repeats the documented range of 1 to 53.
#[verifier::external_body]
pub(crate) fn iso_week(date: &Date) -> (r: u32)
    requires
        date.wf(),
    ensures
        r == iso_week_number(date.year as int, date.month as int, date.day as int),
        1 <= r <= 53,
{
    let day = NaiveDate::from_ymd_opt(date.year, date.month, date.day).unwrap();
    day.iso_week().week()
}

/// Calls `TimeDelta::try_days` and `NaiveDate::checked_add_signed`. The
/// contract claims that a date that comes back lies `days` days after `date`,
/// and that one does come back whenever that day is within the supported
/// years.
#[verifier::external_body]
pub(crate) fn shift_days(date: &Date, days: i32) -> (r: Option<Date>)
    requires
        date.wf(),
    ensures
        r matches Some(d) ==> d.wf() && d@ == date@ + days,
        first_day_number() <= date@ + days <= last_day_number() ==> r.is_some(),
{
    let delta = TimeDelta::try_days(days as i64)?;
    let from = NaiveDate::from_ymd_opt(date.year, date.month, date.day)?;
    match from.checked_add_signed(delta) {
        Some(d) => Some(Date { year: d.year(), month: d.month(), day: d.day() }),
        None => None,
    }
}

/// Calls `NaiveDate::signed_duration_since` and `TimeDelta::num_days`. The
/// contract claims the number of days from `from` to `to`.
#[verifier::external_body]
pub(crate) fn days_between(from: &Date, to: &Date) -> (r: i64)
    requires
        from.wf(),
        to.wf(),
    ensures
        r == to@ - from@,
{
    let a = NaiveDate::from_ymd_opt(from.year, from.month, from.day).unwrap();
    let b = NaiveDate::from_ymd_opt(to.year, to.month, to.day).unwrap();
    b.signed_duration_since(a).num_days()
}

/// Calls `computus::gregorian_naive`. The contract names the date, and adds
/// what the source shows: the call fails exactly outside the years 1583 to
/// 9999, and the date it gives is a date of the year asked for.
#[verifier::external_body]
pub(crate) fn easter_sunday(year: i32) -> (r: Option<Date>)
    ensures
        match r {
            Some(d) => d.wf() && d.year == year && gregorian_easter(year as int) == Some(d.ymd()),
            None => gregorian_easter(year as int).is_none(),
        },
        r.is_some() <==> 1583 <= year <= 9999,
{
    match computus::gregorian_naive(year) {
        Ok(d) => Some(Date { year: d.year(), month: d.month(), day: d.day() }),
        Err(_) => None,
    }
}

/// The English name of a month, from 1 for January.
pub open spec fn english_month_name(month: int) -> Seq<char> {
    if month == 1 {
        "January"@
    } else if month == 2 {
        "February"@
    } else if month == 3 {
        "March"@
    } else if month == 4 {
        "April"@
    } else if month == 5 {
        "May"@
    } else if month == 6 {
        "June"@
    } else if month == 7 {
        "July"@
    } else if month == 8 {
        "August"@
    } else if month == 9 {
        "September"@
    } else if month == 10 {
        "October"@
    } else if month == 11 {
        "November"@
    } else {
        "December"@
    }
}

/// Calls `NaiveDate::format` with the item `%B` and writes the outcome to a
/// `String`. The contract claims what `chrono` documents for `%B`: the full
/// English name of the date's month.
#[verifier::external_body]
pub(crate) fn month_name(date: &Date) -> (r: String)
    requires
        date.wf(),
    ensures
        r@ == english_month_name(date.month as int),
{
    let day = NaiveDate::from_ymd_opt(date.year, date.month, date.day).unwrap();
    day.format("%B").to_string()
}

} // verus!
