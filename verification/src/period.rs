//! Reporting periods: Monday-to-Sunday weeks, cut at the ends of the month,
//! with a cut-off piece of a week joined to the week beside it where it is short.

use crate::calendar::{lemma_later_in_month, lemma_room_after, month_length, Date};
use crate::labels::{week_label, week_label_text};
use crate::naive_date::{days_between, iso_week, iso_week_number, shift_days, weekday_from_monday};
use vstd::prelude::*;

verus! {

/// The day of the month of the Monday on or before `d`; zero or less where
/// that Monday lies in the month before.
pub open spec fn latest_monday(d: Date) -> int {
    d.day - d.weekday()
}

/// The number of days of the month that follow the Monday on or before `d`.
pub open spec fn last_week_len(d: Date) -> int {
    month_length(d.year as int, d.month as int) - latest_monday(d)
}

/// The day of the month on which the reporting period of `d` begins.
pub open spec fn period_first_day(d: Date) -> int {
    if latest_monday(d) <= 5 {
        1
    } else if last_week_len(d) > 1 {
        latest_monday(d)
    } else {
        latest_monday(d) - 7
    }
}

/// The number of days of the reporting period of `d`.
pub open spec fn period_length(d: Date) -> int {
    let monday = latest_monday(d);
    let rest = last_week_len(d);
    if monday <= -2 {
        monday + 13
    } else if monday <= 5 {
        monday + 6
    } else if rest <= 1 {
        rest + 8
    } else if rest <= 8 {
        rest + 1
    } else {
        7
    }
}

/// The day of the month on which the reporting period of `d` ends.
pub open spec fn period_last_day(d: Date) -> int {
    period_first_day(d) + period_length(d) - 1
}

/// The first day of the reporting period of `d`.
pub open spec fn period_start(d: Date) -> Date {
    Date { year: d.year, month: d.month, day: period_first_day(d) as u32 }
}

/// The last day of the reporting period of `d`.
pub open spec fn period_end(d: Date) -> Date {
    Date { year: d.year, month: d.month, day: period_last_day(d) as u32 }
}

/// A reporting period lies within the month of its date, holds the date, and
/// has between 3 and 11 days.
pub proof fn lemma_period_shape(d: Date)
    requires
        d.wf(),
    ensures
        1 <= period_first_day(d) <= d.day <= period_last_day(d) <= month_length(
            d.year as int,
            d.month as int,
        ),
        3 <= period_length(d) <= 11,
        period_start(d).wf(),
        period_end(d).wf(),
        period_start(d)@ <= d@ <= period_end(d)@,
        period_end(d)@ - period_start(d)@ == period_length(d) - 1,
{
}

/// The first and the last day of the reporting period that `date` belongs to.
pub fn period_boundaries(date: &Date) -> (r: Result<(Date, Date), String>)
    requires
        date.wf(),
    ensures
        r matches Ok((start, end)) && start == period_start(*date) && end == period_end(*date),
{
    proof {
        lemma_period_shape(*date);
    }
    let weekday: u32 = weekday_from_monday(date);
    let latest_monday: i32 = date.day() as i32 - weekday as i32;
    let last_week_len: i32 = date.days_in_month() - latest_monday;

    let (start_date, len): (Date, i32) = match latest_monday {
        -5..=-2 => {
            match Date::from_ymd_opt(date.year(), date.month(), 1) {
                Some(first) => (first, latest_monday + 13),
                None => { return Err("Invalid start date".to_owned()); },
            }
        },
        -1..=5 => {
            match Date::from_ymd_opt(date.year(), date.month(), 1) {
                Some(first) => (first, latest_monday + 6),
                None => { return Err("Invalid start date".to_owned()); },
            }
        },
        6..=31 => {
            let new_day: i32 = if last_week_len > 1 {
                latest_monday
            } else {
                latest_monday - 7
            };
            let new_date = match Date::from_ymd_opt(date.year(), date.month(), new_day as u32) {
                Some(d) => d,
                None => { return Err("Invalid calculated date".to_owned()); },
            };
            let len: i32 = match last_week_len {
                0 | 1 => last_week_len + 8,
                2..=8 => last_week_len + 1,
                9..=31 => 7,
                _ => { return Err("The days after the latest Monday must be between 0 and 31".to_owned()); },
            };
            (new_date, len)
        },
        _ => { return Err("The latest Monday must be between day -5 and day 31".to_owned()); },
    };
    proof {
        lemma_room_after(start_date, len - 1);
    }
    let end_date = match shift_days(&start_date, len - 1) {
        Some(d) => d,
        None => { return Err("Invalid end date".to_owned()); },
    };
    proof {
        lemma_later_in_month(start_date, len - 1, end_date);
    }
    Ok((start_date, end_date))
}

/// The ISO week number by which a reporting period is known: that of its
/// first day where the period begins on a Monday and its last day lies a week
/// or more after the first, else that of its last day.
pub open spec fn period_week(start: Date, end: Date) -> int {
    if start.weekday() == 0 && end@ - start@ >= 7 {
        iso_week_number(start.year as int, start.month as int, start.day as int)
    } else {
        iso_week_number(end.year as int, end.month as int, end.day as int)
    }
}

/// The ISO week number by which the period from `start` to `end` is known.
pub fn period_week_number(start: &Date, end: &Date) -> (r: u32)
    requires
        start.wf(),
        end.wf(),
    ensures
        r == period_week(*start, *end),
        1 <= r <= 53,
{
    let len: i64 = days_between(start, end);
    if weekday_from_monday(start) == 0 && len >= 7 {
        iso_week(start)
    } else {
        iso_week(end)
    }
}

/// The key under which the period from `start` to `end` is shown.
pub fn period_name(start: &Date, end: &Date) -> (r: String)
    requires
        start.wf(),
        end.wf(),
    ensures
        r@ == week_label_text(period_week(*start, *end)),
{
    week_label(period_week_number(start, end))
}

/// The weekday on which the month of `d` opens.
pub open spec fn opening_weekday(d: Date) -> int {
    (Date { year: d.year, month: d.month, day: 1 }).weekday()
}

/// In a month that opens on a Thursday, Friday, Saturday or Sunday, the days
/// up to the first Sunday are joined to the week that follows them: every
/// date up to the second Sunday has the period from the 1st to that Sunday.
/// In a month that opens on a Thursday this is the period from the 1st to the
/// 11th.
pub proof fn lemma_short_opening_is_merged(d: Date)
    requires
        d.wf(),
        opening_weekday(d) >= 3,
        d.day <= 14 - opening_weekday(d),
    ensures
        period_first_day(d) == 1,
        period_last_day(d) == 14 - opening_weekday(d),
        opening_weekday(d) == 3 ==> period_last_day(d) == 11,
{
}

/// In a month that opens on a Monday, Tuesday or Wednesday, the days up to
/// the first Sunday stand as a period of their own, and the week that
/// follows them begins a new period on its Monday.
pub proof fn lemma_long_opening_stands_alone(d: Date)
    requires
        d.wf(),
        opening_weekday(d) <= 2,
        d.day <= 14 - opening_weekday(d),
    ensures
        d.day <= 7 - opening_weekday(d) ==> period_first_day(d) == 1 && period_last_day(d) == 7
            - opening_weekday(d),
        d.day > 7 - opening_weekday(d) ==> period_first_day(d) == 8 - opening_weekday(d)
            && period_last_day(d) == 14 - opening_weekday(d),
{
}

} // verus!
