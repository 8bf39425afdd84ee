//! Working hours between two dates: the hours of one reporting period, and
//! the walk over a whole range that gathers them by year, month and period.

use crate::calendar::{
    date_of, last_day_number, lemma_date_of, lemma_dates_between, lemma_day_number_bounds,
    lemma_order, lemma_same_month, lemma_within_year, lemma_year_starts_ordered, Date,
};
use crate::holidays::{
    first_year_without_holidays, for_years, has_holidays, holidays_of_years, lemma_room_around,
    year_failure, year_holidays,
};
use crate::hours_model::{lemma_tree_record_keeps_order, TreeHours};
pub use crate::hours_tree::WorkHours;
use crate::naive_date::{parse_date, parsed_date, shift_days, weekday_from_monday};
use crate::period::{
    lemma_period_shape, period_boundaries, period_end, period_start, period_week,
    period_week_number,
};
use vstd::prelude::*;

verus! {

/// The hours worked on a full working day.
pub const HOURS_PER_DAY: u32 = 8;

/// The hours worked on day `d`: none on a Saturday, a Sunday or one of the
/// `holidays`, eight on any other day.
pub open spec fn day_hours(d: Date, holidays: Seq<Date>) -> int {
    if d.weekday() >= 5 || holidays.contains(d) {
        0
    } else {
        HOURS_PER_DAY as int
    }
}

/// The hours worked on the days numbered `first` to `last`, given the `holidays`.
pub open spec fn hours_between(first: int, last: int, holidays: Seq<Date>) -> int
    decreases last - first + 1,
{
    if last < first {
        0
    } else {
        hours_between(first, last - 1, holidays) + day_hours(date_of(last), holidays)
    }
}

/// The hours worked on the day numbered `n`, given the holidays of its year.
pub open spec fn working_hours_on(n: int) -> int {
    day_hours(date_of(n), year_holidays(date_of(n).year as int))
}

/// The hours worked on the days numbered `first` to `last`.
pub open spec fn working_hours(first: int, last: int) -> int
    decreases last - first + 1,
{
    if last < first {
        0
    } else {
        working_hours(first, last - 1) + working_hours_on(last)
    }
}

/// No day has more than eight hours, so a range has at most eight per day.
pub proof fn lemma_hours_bounds(first: int, last: int, holidays: Seq<Date>)
    requires
        first <= last + 1,
    ensures
        0 <= hours_between(first, last, holidays) <= 8 * (last - first + 1),
    decreases last - first + 1,
{
    if first <= last {
        lemma_hours_bounds(first, last - 1, holidays);
    }
}

/// No day has more than eight hours, so a range has at most eight per day.
pub proof fn lemma_working_hours_bounds(first: int, last: int)
    requires
        first <= last + 1,
    ensures
        0 <= working_hours(first, last) <= 8 * (last - first + 1),
    decreases last - first + 1,
{
    if first <= last {
        lemma_working_hours_bounds(first, last - 1);
    }
}

/// The hours of a range are those of its two parts.
pub proof fn lemma_working_hours_split(first: int, middle: int, last: int)
    requires
        first <= middle + 1,
        middle <= last,
    ensures
        working_hours(first, last) == working_hours(first, middle) + working_hours(
            middle + 1,
            last,
        ),
    decreases last - middle,
{
    if middle < last {
        lemma_working_hours_split(first, middle, last - 1);
    }
}

/// A single day counts for nothing where it is a Saturday, a Sunday or a
/// holiday, and for eight hours otherwise.
pub proof fn lemma_single_day(d: Date, holidays: Seq<Date>)
    requires
        d.wf(),
    ensures
        d.weekday() >= 5 ==> hours_between(d@, d@, holidays) == 0,
        holidays.contains(d) ==> hours_between(d@, d@, holidays) == 0,
        d.weekday() < 5 && !holidays.contains(d) ==> hours_between(d@, d@, holidays) == 8,
{
    lemma_date_of(d);
    assert(hours_between(d@, d@ - 1, holidays) == 0);
}

/// Whether `date` is one of `dates`.
pub fn contains_date(dates: &Vec<Date>, date: &Date) -> (r: bool)
    ensures
        r == dates@.contains(*date),
{
    let mut i: usize = 0;
    while i < dates.len()
        invariant
            0 <= i <= dates.len(),
            forall|j: int| 0 <= j < i ==> dates@[j] != *date,
        decreases dates.len() - i,
    {
        if dates[i] == *date {
            return true;
        }
        i += 1;
    }
    false
}

/// The hours worked from `start` to `end`, both included: eight for each day
/// that is no Saturday, no Sunday and none of the `holidays`.
pub fn score_period(start: &Date, end: &Date, holidays: &Vec<Date>) -> (hours: u32)
    requires
        start.wf(),
        end.wf(),
    ensures
        hours == hours_between(start@, end@, holidays@),
{
    proof {
        lemma_day_number_bounds(*start);
        lemma_day_number_bounds(*end);
    }
    let mut hours: u32 = 0;
    let mut date: Date = *start;
    let mut done: bool = !date.le(end);
    while !done
        invariant
            start.wf(),
            end.wf(),
            date.wf(),
            start@ <= date@,
            end@ <= last_day_number(),
            !done ==> date@ <= end@,
            !done ==> hours == hours_between(start@, date@ - 1, holidays@),
            done ==> hours == hours_between(start@, end@, holidays@),
            end@ - start@ < 2 * 95747000,
        decreases (if done { 0int } else { end@ + 1 - date@ }),
    {
        proof {
            lemma_date_of(date);
            lemma_hours_bounds(start@, date@ - 1, holidays@);
            lemma_day_number_bounds(date);
        }
        let free: bool = weekday_from_monday(&date) >= 5 || contains_date(holidays, &date);
        if !free {
            hours = hours + HOURS_PER_DAY;
        }
        match shift_days(&date, 1) {
            Some(next) => {
                date = next;
                done = !date.le(end);
            },
            None => {
                done = true;
            },
        }
    }
    hours
}

/// The day on which the period of `start` is closed within a range that
/// ends on `end`: the earlier of `end` and the last day of the period.
pub open spec fn clipped_end(start: Date, end: Date) -> Date {
    if end@ < period_end(start)@ {
        end
    } else {
        period_end(start)
    }
}

/// The `k`-th day after `start`, where that lies in the month of `start`.
pub proof fn lemma_day_in_month(start: Date, k: int)
    requires
        start.wf(),
        0 <= k,
        start@ + k <= period_end(start)@,
    ensures
        date_of(start@ + k) == (Date {
            year: start.year,
            month: start.month,
            day: (start.day + k) as u32,
        }),
        date_of(start@ + k).wf(),
        date_of(start@ + k)@ == start@ + k,
{
    lemma_period_shape(start);
    let c = Date { year: start.year, month: start.month, day: (start.day + k) as u32 };
    lemma_date_of(c);
}

/// Up to the end of the period of `start`, the holidays that count are those
/// of the year of `start`.
pub proof fn lemma_period_hours(start: Date, last: int)
    requires
        start.wf(),
        last <= period_end(start)@,
    ensures
        hours_between(start@, last, year_holidays(start.year as int)) == working_hours(
            start@,
            last,
        ),
    decreases last - start@ + 1,
{
    if start@ <= last {
        lemma_period_hours(start, last - 1);
        lemma_day_in_month(start, last - start@);
    }
}

/// The week number, the working hours and the last day of the reporting
/// period that is entered on `start_date` and cut off after `end_date`.
pub fn calculate_period(start_date: &Date, end_date: &Date) -> (r: Result<(u32, u32, Date), String>)
    requires
        start_date.wf(),
        end_date.wf(),
    ensures
        has_holidays(start_date.year as int) ==> (r matches Ok((week, hours, last)) && week
            == period_week(period_start(*start_date), period_end(*start_date)) && last
            == clipped_end(*start_date, *end_date) && hours == working_hours(
            start_date@,
            last@,
        )),
        !has_holidays(start_date.year as int) ==> (r matches Err(e) && e@ == year_failure(
            start_date.year as int,
        )),
{
    proof {
        lemma_period_shape(*start_date);
    }
    let (period_start, period_end) = match period_boundaries(start_date) {
        Ok(bounds) => bounds,
        Err(e) => { return Err(e); },
    };
    let week: u32 = period_week_number(&period_start, &period_end);
    let holidays = match for_years(start_date.year(), period_end.year()) {
        Ok(days) => days,
        Err(e) => { return Err(e); },
    };
    let last: Date = if period_end.le(end_date) {
        period_end
    } else {
        *end_date
    };
    let hours: u32 = score_period(start_date, &last, &holidays);
    proof {
        let year = start_date.year as int;
        assert(holidays_of_years(year, year - 1) =~= Seq::<Date>::empty());
        assert(holidays_of_years(year, year) =~= year_holidays(year));
        lemma_period_hours(*start_date, last@);
    }
    Ok((week, hours, last))
}

/// One step of the walk over a range: the days `first` to `last` of one
/// reporting period, the year, month and week number under which they are
/// entered, and their working hours.
pub struct Visit {
    pub first: int,
    pub last: int,
    pub year: int,
    pub month: int,
    pub week: int,
    pub hours: int,
}

/// The step that begins on day `first` of a range that ends on day `end`: it
/// runs to the end of the period of `first`, or to `end` where that comes
/// earlier, and is entered under the year and month of `first` and the week
/// number of the whole period.
pub open spec fn visit_at(first: int, end: int) -> Visit {
    let date = date_of(first);
    let last = if end < period_end(date)@ { end } else { period_end(date)@ };
    Visit {
        first,
        last,
        year: date.year as int,
        month: date.month as int,
        week: period_week(period_start(date), period_end(date)),
        hours: working_hours(first, last),
    }
}

/// Every day of a step lies in the year and the month under which the step
/// is entered.
pub proof fn lemma_step_in_one_month(first: Date, end: int, n: int)
    requires
        first.wf(),
        first@ <= n <= visit_at(first@, end).last,
    ensures
        date_of(n).wf(),
        date_of(n)@ == n,
        date_of(n).year == visit_at(first@, end).year,
        date_of(n).month == visit_at(first@, end).month,
{
    lemma_date_of(first);
    lemma_day_in_month(first, n - first@);
}

/// The steps of the walk from day `first` to day `end`, in their order.
pub open spec fn visits(first: int, end: int) -> Seq<Visit>
    decreases end - first + 1,
{
    if end < first {
        Seq::empty()
    } else {
        let visit = visit_at(first, end);
        if visit.last < first {
            Seq::empty()
        } else {
            seq![visit] + visits(visit.last + 1, end)
        }
    }
}

/// The tree in which the `steps` were entered one after the other.
pub open spec fn tally(steps: Seq<Visit>) -> TreeHours
    decreases steps.len(),
{
    if steps.len() == 0 {
        TreeHours::empty()
    } else {
        let step = steps.last();
        tally(steps.drop_last()).record(step.year, step.month, step.week, step.hours)
    }
}

/// What the walk from `start` to `end` comes to: the tree of its steps where
/// the holidays of every year of the range can be computed, else the failure
/// of the first year for which they cannot.
pub open spec fn walk_outcome(start: Date, end: Date, r: Result<WorkHours, String>) -> bool {
    if has_holidays(start.year as int) && has_holidays(end.year as int) {
        r matches Ok(tree) && tree.wf() && tree@ == tally(visits(start@, end@)) && tree@.total
            == working_hours(start@, end@)
    } else {
        r matches Err(e) && e@ == year_failure(first_year_without_holidays(start.year as int))
    }
}

/// The day after a date lies in the year of that date or in the next.
pub proof fn lemma_next_year(last: Date, next: Date)
    requires
        last.wf(),
        next.wf(),
        next@ == last@ + 1,
    ensures
        last.year <= next.year <= last.year + 1,
{
    lemma_order(last, next);
    lemma_within_year(last);
    lemma_within_year(next);
    if next.year > last.year + 1 {
        lemma_year_starts_ordered(last.year + 1, next.year as int);
    }
}

/// The working hours from `start` to `end`, both included, by year, month
/// and reporting period.
pub fn workhours_between(start: &Date, end: &Date) -> (r: Result<WorkHours, String>)
    requires
        start.wf(),
        end.wf(),
        start@ <= end@,
    ensures
        walk_outcome(*start, *end, r),
{
    let mut tree = WorkHours::new();
    let mut current: Date = *start;
    let ghost mut done: Seq<Visit> = Seq::empty();
    let ghost mut previous: Date = *start;
    proof {
        lemma_day_number_bounds(*start);
        lemma_day_number_bounds(*end);
        assert(working_hours(start@, start@ - 1) == 0);
    }
    while current.le(end)
        invariant
            start.wf(),
            end.wf(),
            current.wf(),
            start@ <= current@ <= end@ + 1,
            end@ - start@ < 2 * 95747000,
            tree.wf(),
            tree@ == tally(done),
            tree@.total == working_hours(start@, current@ - 1),
            visits(start@, end@) == done + visits(current@, end@),
            current@ > start@ ==> previous.wf() && previous@ == current@ - 1 && has_holidays(
                previous.year as int,
            ) && has_holidays(start.year as int),
        decreases end@ + 1 - current@,
    {
        let year: i32 = current.year();
        let month: u32 = current.month();
        proof {
            lemma_date_of(current);
            lemma_period_shape(current);
            lemma_order(*start, current);
            lemma_order(current, *end);
            if current@ > start@ {
                lemma_next_year(previous, current);
            }
        }
        let (week, hours, last) = match calculate_period(&current, end) {
            Ok(period) => period,
            Err(e) => { return Err(e); },
        };
        proof {
            lemma_same_month(current, last, period_end(current));
            lemma_room_around(last);
            lemma_working_hours_split(start@, current@ - 1, last@);
            lemma_working_hours_bounds(start@, last@);
        }
        tree.record(year, month, week, hours);
        let next = match shift_days(&last, 1) {
            Some(d) => d,
            None => { return Err("Failed to step to the next period".to_owned()); },
        };
        proof {
            let step = visit_at(current@, end@);
            assert(done.push(step).drop_last() =~= done);
            assert(visits(start@, end@) =~= done.push(step) + visits(next@, end@));
            done = done.push(step);
            previous = last;
        }
        current = next;
    }
    proof {
        lemma_order(previous, *end);
        assert(visits(start@, end@) =~= done);
    }
    Ok(tree)
}

/// Whether `steps` go from day `first` to day `last` without a gap and
/// without a day taken twice: the first step begins on `first`, each step
/// ends no earlier than it begins, each next step begins on the day after the
/// step before it ends, and the last step ends on `last`.
pub open spec fn covers(steps: Seq<Visit>, first: int, last: int) -> bool {
    &&& steps.len() > 0
    &&& steps[0].first == first
    &&& steps.last().last == last
    &&& forall|i: int| 0 <= i < steps.len() ==> steps[i].first <= steps[i].last
    &&& forall|i: int| 0 <= i < steps.len() - 1 ==> steps[i + 1].first == steps[i].last + 1
}

/// The steps of a walk from `first` to the date `end` cover these days.
pub proof fn lemma_visits_cover_from(start: Date, first: int, end: Date)
    requires
        start.wf(),
        end.wf(),
        start@ <= first <= end@,
    ensures
        covers(visits(first, end@), first, end@),
    decreases end@ - first,
{
    lemma_dates_between(start, first, end);
    lemma_period_shape(date_of(first));
    let step = visit_at(first, end@);
    let rest = visits(step.last + 1, end@);
    let steps = visits(first, end@);
    assert(steps =~= seq![step] + rest);
    if step.last < end@ {
        lemma_visits_cover_from(start, step.last + 1, end);
        assert forall|i: int| 0 <= i < steps.len() implies steps[i].first <= steps[i].last by {
            if i > 0 {
                assert(steps[i] == rest[i - 1]);
            }
        }
        assert forall|i: int| 0 <= i < steps.len() - 1 implies steps[i + 1].first
            == steps[i].last + 1 by {
            assert(steps[i + 1] == rest[i]);
            if i > 0 {
                assert(steps[i] == rest[i - 1]);
            }
        }
        assert(steps.last() == rest.last());
    } else {
        assert(rest =~= Seq::<Visit>::empty());
    }
}

/// The reporting periods that a walk over a range visits follow each other
/// without a gap and without overlap, and together they are the range.
pub proof fn lemma_visits_cover(start: Date, end: Date)
    requires
        start.wf(),
        end.wf(),
        start@ <= end@,
    ensures
        covers(visits(start@, end@), start@, end@),
{
    lemma_visits_cover_from(start, start@, end);
}

/// Whether step `b` is entered under the month of step `a` or a later one.
pub open spec fn not_before(a: Visit, b: Visit) -> bool {
    a.year < b.year || (a.year == b.year && a.month <= b.month)
}

/// Whether no step is entered under an earlier month than the step before it.
pub open spec fn steps_rising(steps: Seq<Visit>) -> bool {
    forall|i: int| 0 <= i < steps.len() - 1 ==> not_before(#[trigger] steps[i], steps[i + 1])
}

/// The steps of a walk are entered under months that never go back.
pub proof fn lemma_visits_rising(start: Date, first: int, end: Date)
    requires
        start.wf(),
        end.wf(),
        start@ <= first <= end@,
    ensures
        steps_rising(visits(first, end@)),
        visits(first, end@).len() > 0,
        visits(first, end@)[0] == visit_at(first, end@),
    decreases end@ - first,
{
    lemma_dates_between(start, first, end);
    lemma_period_shape(date_of(first));
    let step = visit_at(first, end@);
    let rest = visits(step.last + 1, end@);
    let steps = visits(first, end@);
    assert(steps =~= seq![step] + rest);
    if step.last < end@ {
        lemma_visits_rising(start, step.last + 1, end);
        lemma_dates_between(start, step.last + 1, end);
        lemma_order(date_of(first), date_of(step.last + 1));
        assert forall|i: int| 0 <= i < steps.len() - 1 implies not_before(
            #[trigger] steps[i],
            steps[i + 1],
        ) by {
            assert(steps[i + 1] == rest[i]);
            if i > 0 {
                assert(steps[i] == rest[i - 1]);
            }
        }
    } else {
        assert(rest =~= Seq::<Visit>::empty());
    }
}

/// Steps whose months never go back give a tree in calendar order, which
/// ends with the month of the last step.
pub proof fn lemma_tally_in_order(steps: Seq<Visit>)
    requires
        steps_rising(steps),
    ensures
        tally(steps).in_calendar_order(),
        steps.len() > 0 ==> tally(steps).ends_with(steps.last().year, steps.last().month),
    decreases steps.len(),
{
    if steps.len() > 0 {
        let before = steps.drop_last();
        let step = steps.last();
        assert forall|i: int| 0 <= i < before.len() - 1 implies not_before(
            #[trigger] before[i],
            before[i + 1],
        ) by {
            assert(before[i] == steps[i] && before[i + 1] == steps[i + 1]);
        }
        lemma_tally_in_order(before);
        if before.len() > 0 {
            assert(before.last() == steps[steps.len() - 2]);
            assert(not_before(steps[steps.len() - 2], steps[steps.len() - 2 + 1]));
        }
        lemma_tree_record_keeps_order(tally(before), step.year, step.month, step.week, step.hours);
    }
}

/// In the tree of a walk the years stand in rising order, and within each
/// year the months do; the periods of a month stand in the order in which
/// the walk came to them.
pub proof fn lemma_walk_in_calendar_order(start: Date, end: Date)
    requires
        start.wf(),
        end.wf(),
        start@ <= end@,
    ensures
        tally(visits(start@, end@)).in_calendar_order(),
{
    lemma_visits_rising(start, start@, end);
    lemma_tally_in_order(visits(start@, end@));
}

/// The strftime pattern in which dates are written: day, month and year,
/// with hyphens between them.
pub open spec fn date_pattern() -> Seq<char> {
    "%d-%m-%Y"@
}

/// What is reported for a start date that cannot be read.
pub open spec fn invalid_start_message() -> Seq<char> {
    "Invalid start date"@
}

/// What is reported for an end date that cannot be read.
pub open spec fn invalid_end_message() -> Seq<char> {
    "Invalid end date"@
}

/// What is reported for a start date that lies after the end date.
pub open spec fn inverted_range_message() -> Seq<char> {
    "Start date must be before end date"@
}

/// The date that is read from `text`, where there is one.
pub open spec fn read_date(text: Seq<char>) -> Option<Date> {
    match parsed_date(text, date_pattern()) {
        Some((year, month, day)) => Some(
            Date { year: year as i32, month: month as u32, day: day as u32 },
        ),
        None => None,
    }
}

/// What is wrong with a range whose two ends were read as `start` and `end`:
/// the start could not be read, or else the end could not be read, or else
/// the start lies after the end; `None` where nothing is wrong.
pub open spec fn range_fault(start: Option<Date>, end: Option<Date>) -> Option<Seq<char>> {
    match (start, end) {
        (None, _) => Some(invalid_start_message()),
        (Some(_), None) => Some(invalid_end_message()),
        (Some(a), Some(b)) => if a@ > b@ {
            Some(inverted_range_message())
        } else {
            None
        },
    }
}

/// The two ends of a range, where both were read and the start does not lie
/// after the end; else what is wrong with the range.
pub fn ordered_range(start: Option<Date>, end: Option<Date>) -> (r: Result<(Date, Date), String>)
    requires
        start matches Some(d) ==> d.wf(),
        end matches Some(d) ==> d.wf(),
    ensures
        match range_fault(start, end) {
            Some(message) => r matches Err(e) && e@ == message,
            None => r matches Ok((a, b)) && start == Some(a) && end == Some(b),
        },
{
    let start_date = match start {
        Some(d) => d,
        None => { return Err("Invalid start date".to_owned()); },
    };
    let end_date = match end {
        Some(d) => d,
        None => { return Err("Invalid end date".to_owned()); },
    };
    if !start_date.le(&end_date) {
        return Err("Start date must be before end date".to_owned());
    }
    Ok((start_date, end_date))
}

/// Reads the two ends of a range, each written as day, month and year with
/// hyphens between them.
pub fn parse_dates(start: String, end: String) -> (r: Result<(Date, Date), String>)
    ensures
        match range_fault(read_date(start@), read_date(end@)) {
            Some(message) => r matches Err(e) && e@ == message,
            None => r matches Ok((a, b)) && read_date(start@) == Some(a) && read_date(end@)
                == Some(b) && a.wf() && b.wf() && a@ <= b@,
        },
{
    let start_date = parse_date(start.as_str(), "%d-%m-%Y");
    let end_date = parse_date(end.as_str(), "%d-%m-%Y");
    ordered_range(start_date, end_date)
}

/// What the calculation comes to for a range whose two ends were read as
/// `start` and `end`: what is wrong with the range, or else the outcome of
/// the walk over it.
pub open spec fn calculation_outcome(
    start: Option<Date>,
    end: Option<Date>,
    r: Result<WorkHours, String>,
) -> bool {
    match range_fault(start, end) {
        Some(message) => r matches Err(e) && e@ == message,
        None => walk_outcome(start.unwrap(), end.unwrap(), r),
    }
}

/// The working hours from `start` to `end`, both included and each written
/// as day, month and year with hyphens between them, by year, month and
/// reporting period.
pub fn calculate_workhours(start: String, end: String) -> (r: Result<WorkHours, String>)
    ensures
        calculation_outcome(read_date(start@), read_date(end@), r),
{
    let (start_date, end_date) = match parse_dates(start, end) {
        Ok(range) => range,
        Err(e) => { return Err(e); },
    };
    workhours_between(&start_date, &end_date)
}

/// Two calculations over the same range come to the same: both fail with the
/// same message, or both give trees with the same years, months, periods,
/// hours and totals, in the same order.
pub proof fn lemma_calculation_is_determined(
    start: Option<Date>,
    end: Option<Date>,
    r1: Result<WorkHours, String>,
    r2: Result<WorkHours, String>,
)
    requires
        calculation_outcome(start, end, r1),
        calculation_outcome(start, end, r2),
    ensures
        match (r1, r2) {
            (Ok(a), Ok(b)) => a@ == b@,
            (Err(a), Err(b)) => a@ == b@,
            _ => false,
        },
{
}

} // verus!
