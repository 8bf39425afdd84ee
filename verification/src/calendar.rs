//! The proleptic Gregorian calendar: the `Date` value type, its day-number
//! model, and the arithmetic facts the rest of the crate builds on.

use vstd::prelude::*;

verus! {

/// The earliest year a `Date` may carry: the first year of `chrono::NaiveDate`.
pub const MIN_YEAR: i32 = -262143;

/// The latest year a `Date` may carry: the last year of `chrono::NaiveDate`.
pub const MAX_YEAR: i32 = 262142;

/// The Gregorian leap-year rule.
pub open spec fn is_leap(year: int) -> bool {
    year % 4 == 0 && (year % 100 != 0 || year % 400 == 0)
}

/// The number of days of `month` (1 to 12) in `year`.
pub open spec fn month_length(year: int, month: int) -> int {
    if month == 2 {
        if is_leap(year) { 29 } else { 28 }
    } else if month == 4 || month == 6 || month == 9 || month == 11 {
        30
    } else {
        31
    }
}

/// The number of days of `year` that lie before the first day of `month`.
#[verifier::opaque]
pub open spec fn days_before_month(year: int, month: int) -> int {
    let common: int = if month <= 1 { 0 }
        else if month == 2 { 31 }
        else if month == 3 { 59 }
        else if month == 4 { 90 }
        else if month == 5 { 120 }
        else if month == 6 { 151 }
        else if month == 7 { 181 }
        else if month == 8 { 212 }
        else if month == 9 { 243 }
        else if month == 10 { 273 }
        else if month == 11 { 304 }
        else { 334 };
    if month > 2 && is_leap(year) { common + 1 } else { common }
}

/// The number of days that lie between the start of year 1 and the start of `year`.
#[verifier::opaque]
pub open spec fn days_before_year(year: int) -> int {
    365 * (year - 1) + (year - 1) / 4 - (year - 1) / 100 + (year - 1) / 400
}

/// The day number of a calendar day: 1 January of year 1 is day 1, and each
/// following day is one more.
pub open spec fn day_number(year: int, month: int, day: int) -> int {
    days_before_year(year) + days_before_month(year, month) + day
}

/// The weekday of a day number, counted from Monday = 0 to Sunday = 6.
pub open spec fn weekday_of(n: int) -> int {
    (n - 1) % 7
}

/// Whether `(year, month, day)` names a day of the calendar within the supported years.
pub open spec fn valid_ymd(year: int, month: int, day: int) -> bool {
    &&& MIN_YEAR <= year <= MAX_YEAR
    &&& 1 <= month <= 12
    &&& 1 <= day <= month_length(year, month)
}

/// The day number of the first supported day.
pub open spec fn first_day_number() -> int {
    day_number(MIN_YEAR as int, 1, 1)
}

/// The day number of the last supported day.
pub open spec fn last_day_number() -> int {
    day_number(MAX_YEAR as int, 12, 31)
}

/// A calendar day. Its view is its day number.
#[derive(Clone, Copy, Debug, PartialEq, Eq, Structural)]
pub struct Date {
    pub year: i32,
    pub month: u32,
    pub day: u32,
}

impl View for Date {
    type V = int;

    open spec fn view(&self) -> int {
        day_number(self.year as int, self.month as int, self.day as int)
    }
}

/// The date with the given day number, where there is one.
pub open spec fn date_of(n: int) -> Date {
    choose|d: Date| d.wf() && d@ == n
}

/// The year starts never move backwards.
pub proof fn lemma_year_starts_ordered(y1: int, y2: int)
    requires
        y1 <= y2,
    ensures
        days_before_year(y1) + 365 * (y2 - y1) <= days_before_year(y2),
    decreases y2 - y1,
{
    reveal(days_before_year);
    if y1 < y2 {
        lemma_year_starts_ordered(y1, y2 - 1);
    }
}

/// A date lies within its year.
pub proof fn lemma_within_year(d: Date)
    requires
        d.wf(),
    ensures
        days_before_year(d.year as int) < d@ <= days_before_year(d.year + 1),
        days_before_year(d.year + 1) == days_before_year(d.year as int) + 365 + (if is_leap(
            d.year as int,
        ) { 1int } else { 0int }),
{
    reveal(days_before_year);
    reveal(days_before_month);
}

/// Every supported date has a day number between the first and the last one.
pub proof fn lemma_day_number_bounds(d: Date)
    requires
        d.wf(),
    ensures
        first_day_number() <= d@ <= last_day_number(),
        -95747000 < first_day_number(),
        last_day_number() < 95747000,
{
    reveal(days_before_year);
    reveal(days_before_month);
    lemma_within_year(d);
    lemma_year_starts_ordered(MIN_YEAR as int, d.year as int);
    lemma_year_starts_ordered(d.year + 1, MAX_YEAR + 1);
}

/// Dates are ordered as their day numbers are: an earlier year, or the same
/// year and an earlier month, or the same month and an earlier day, gives a
/// smaller day number.
pub proof fn lemma_order(a: Date, b: Date)
    requires
        a.wf(),
        b.wf(),
    ensures
        a.before(b) ==> a@ < b@,
        a@ == b@ ==> a == b,
        a@ <= b@ ==> a.year <= b.year,
        a@ < b@ ==> a.before(b),
{
    reveal(days_before_month);
    lemma_within_year(a);
    lemma_within_year(b);
    if a.year < b.year {
        lemma_year_starts_ordered(a.year + 1, b.year as int);
    }
    if b.year < a.year {
        lemma_year_starts_ordered(b.year + 1, a.year as int);
    }
}

/// A date between two dates of one month lies in that month too.
pub proof fn lemma_same_month(a: Date, b: Date, c: Date)
    requires
        a.wf(),
        b.wf(),
        c.wf(),
        a.year == c.year,
        a.month == c.month,
        a@ <= b@ <= c@,
    ensures
        b.year == a.year,
        b.month == a.month,
        b.day == a.day + (b@ - a@),
{
    lemma_order(a, b);
    lemma_order(b, c);
}

/// The date that lies `k` days after `a` within `a`'s month.
pub proof fn lemma_later_in_month(a: Date, k: int, b: Date)
    requires
        a.wf(),
        b.wf(),
        0 <= k,
        a.day + k <= month_length(a.year as int, a.month as int),
        b@ == a@ + k,
    ensures
        b.year == a.year,
        b.month == a.month,
        b.day == a.day + k,
{
    let c = Date { year: a.year, month: a.month, day: (a.day + k) as u32 };
    lemma_order(b, c);
}

/// A date is the date of its day number.
pub proof fn lemma_date_of(d: Date)
    requires
        d.wf(),
    ensures
        date_of(d@) == d,
{
    let c = date_of(d@);
    assert(c.wf() && c@ == d@);
    lemma_order(c, d);
}

/// The day after `d`: the next day of the month, or the first day of the
/// next month, or of the next year.
pub open spec fn next_day(d: Date) -> Date {
    if d.day < month_length(d.year as int, d.month as int) {
        Date { year: d.year, month: d.month, day: (d.day + 1) as u32 }
    } else if d.month < 12 {
        Date { year: d.year, month: (d.month + 1) as u32, day: 1 }
    } else {
        Date { year: (d.year + 1) as i32, month: 1, day: 1 }
    }
}

/// A date that is not the last supported one is followed by a date.
pub proof fn lemma_next_day(d: Date, later: Date)
    requires
        d.wf(),
        later.wf(),
        d@ < later@,
    ensures
        next_day(d).wf(),
        next_day(d)@ == d@ + 1,
{
    reveal(days_before_month);
    lemma_within_year(d);
    lemma_order(d, later);
}

/// Every day number between those of two dates is the number of a date.
pub proof fn lemma_dates_between(start: Date, n: int, end: Date)
    requires
        start.wf(),
        end.wf(),
        start@ <= n <= end@,
    ensures
        date_of(n).wf(),
        date_of(n)@ == n,
    decreases n - start@,
{
    if n == start@ {
        lemma_date_of(start);
    } else {
        lemma_dates_between(start, n - 1, end);
        lemma_next_day(date_of(n - 1), end);
        lemma_date_of(next_day(date_of(n - 1)));
    }
}

/// The date that lies `k` days before `a` within `a`'s month.
pub proof fn lemma_earlier_in_month(a: Date, k: int, b: Date)
    requires
        a.wf(),
        b.wf(),
        0 <= k < a.day,
        b@ == a@ - k,
    ensures
        b == (Date { year: a.year, month: a.month, day: (a.day - k) as u32 }),
        first_day_number() <= a@ - k,
{
    let c = Date { year: a.year, month: a.month, day: (a.day - k) as u32 };
    lemma_order(b, c);
    lemma_day_number_bounds(c);
}

/// The day `k` days after `a` within `a`'s month is a supported day.
pub proof fn lemma_room_after(a: Date, k: int)
    requires
        a.wf(),
        0 <= k,
        a.day + k <= month_length(a.year as int, a.month as int),
    ensures
        first_day_number() <= a@ + k <= last_day_number(),
{
    let c = Date { year: a.year, month: a.month, day: (a.day + k) as u32 };
    lemma_day_number_bounds(c);
    lemma_day_number_bounds(a);
}

/// The day `k` days before `a` within `a`'s month is a supported day.
pub proof fn lemma_room_before(a: Date, k: int)
    requires
        a.wf(),
        0 <= k < a.day,
    ensures
        first_day_number() <= a@ - k <= last_day_number(),
{
    let c = Date { year: a.year, month: a.month, day: (a.day - k) as u32 };
    lemma_day_number_bounds(c);
    lemma_day_number_bounds(a);
}

impl Date {
    /// The date exists in the calendar and its year is supported.
    pub open spec fn wf(self) -> bool {
        valid_ymd(self.year as int, self.month as int, self.day as int)
    }

    /// The date written as year, month and day.
    pub open spec fn ymd(self) -> (int, int, int) {
        (self.year as int, self.month as int, self.day as int)
    }

    /// Earlier in the calendar, by year, then month, then day.
    pub open spec fn before(self, other: Date) -> bool {
        self.year < other.year || (self.year == other.year && (self.month < other.month || (
        self.month == other.month && self.day < other.day)))
    }

    /// The weekday, counted from Monday = 0.
    pub open spec fn weekday(self) -> int {
        weekday_of(self@)
    }

    /// The date of the given year, month and day, where it exists.
    pub fn from_ymd_opt(year: i32, month: u32, day: u32) -> (r: Option<Date>)
        ensures
            valid_ymd(year as int, month as int, day as int) ==> r == Some(
                Date { year, month, day },
            ),
            !valid_ymd(year as int, month as int, day as int) ==> r.is_none(),
    {
        if year < MIN_YEAR || year > MAX_YEAR || month < 1 || month > 12 || day < 1 {
            return None;
        }
        let first = Date { year, month, day: 1 };
        if day > first.days_in_month() as u32 {
            return None;
        }
        Some(Date { year, month, day })
    }

    pub fn year(&self) -> (r: i32)
        ensures
            r == self.year,
    {
        self.year
    }

    pub fn month(&self) -> (r: u32)
        ensures
            r == self.month,
    {
        self.month
    }

    pub fn day(&self) -> (r: u32)
        ensures
            r == self.day,
    {
        self.day
    }

    /// Whether the date's year is a leap year.
    pub fn is_leap_year(&self) -> (r: bool)
        ensures
            r == is_leap(self.year as int),
    {
        // Shifted by a multiple of 400, so that the remainders are taken of a
        // number that is not negative.
        let shifted: u64 = (self.year as i64 + 2147484000) as u64;
        shifted % 4 == 0 && (shifted % 100 != 0 || shifted % 400 == 0)
    }

    /// The number of days in the date's month.
    pub fn days_in_month(&self) -> (r: i32)
        requires
            1 <= self.month <= 12,
        ensures
            r == month_length(self.year as int, self.month as int),
            28 <= r <= 31,
    {
        let month: u32 = self.month;
        if month == 2 {
            if self.is_leap_year() {
                29
            } else {
                28
            }
        } else if month == 4 || month == 6 || month == 9 || month == 11 {
            30
        } else {
            31
        }
    }

    /// Whether `self` is the same day as `other` or an earlier one.
    pub fn le(&self, other: &Date) -> (r: bool)
        requires
            self.wf(),
            other.wf(),
        ensures
            r == (self@ <= other@),
    {
        proof {
            lemma_order(*self, *other);
            lemma_order(*other, *self);
        }
        if self.year != other.year {
            self.year < other.year
        } else if self.month != other.month {
            self.month < other.month
        } else {
            self.day <= other.day
        }
    }
}

} // verus!
