//! The model of a tree of hours: years, months and reporting periods as
//! sequences in the order of entry, what it means to enter hours, and why the
//! totals of all levels agree.

use vstd::prelude::*;

verus! {

/// The hours of one reporting period, known by its week number.
pub struct WeekHours {
    pub week: int,
    pub hours: int,
}

/// The periods of one month, in the order in which they were first entered,
/// and the total of their hours.
pub struct MonthHours {
    pub month: int,
    pub total: int,
    pub weeks: Seq<WeekHours>,
}

/// The sum of `f` over the items of `s`.
pub open spec fn sum_by<T>(s: Seq<T>, f: spec_fn(T) -> int) -> int
    decreases s.len(),
{
    if s.len() == 0 {
        0
    } else {
        sum_by(s.drop_last(), f) + f(s.last())
    }
}

/// A new item adds its part to the sum.
pub proof fn lemma_sum_push<T>(s: Seq<T>, f: spec_fn(T) -> int, item: T)
    ensures
        sum_by(s.push(item), f) == sum_by(s, f) + f(item),
{
    assert(s.push(item).drop_last() =~= s);
}

/// Replacing an item changes the sum by the difference of the parts.
pub proof fn lemma_sum_update<T>(s: Seq<T>, f: spec_fn(T) -> int, i: int, item: T)
    requires
        0 <= i < s.len(),
    ensures
        sum_by(s.update(i, item), f) == sum_by(s, f) - f(s[i]) + f(item),
    decreases s.len(),
{
    if i == s.len() - 1 {
        assert(s.update(i, item).drop_last() =~= s.drop_last());
    } else {
        lemma_sum_update(s.drop_last(), f, i, item);
        assert(s.update(i, item).drop_last() =~= s.drop_last().update(i, item));
    }
}

/// Where no part is negative, the sum is not negative.
pub proof fn lemma_sum_nonnegative<T>(s: Seq<T>, f: spec_fn(T) -> int)
    requires
        forall|j: int| 0 <= j < s.len() ==> f(s[j]) >= 0,
    ensures
        0 <= sum_by(s, f),
    decreases s.len(),
{
    if s.len() > 0 {
        lemma_sum_nonnegative(s.drop_last(), f);
    }
}

/// Where no part is negative, none is more than the sum.
pub proof fn lemma_sum_bounds<T>(s: Seq<T>, f: spec_fn(T) -> int, i: int)
    requires
        0 <= i < s.len(),
        forall|j: int| 0 <= j < s.len() ==> f(s[j]) >= 0,
    ensures
        0 <= f(s[i]) <= sum_by(s, f),
    decreases s.len(),
{
    if i < s.len() - 1 {
        lemma_sum_bounds(s.drop_last(), f, i);
    } else {
        lemma_sum_nonnegative(s.drop_last(), f);
    }
}

/// The hours of a period.
pub open spec fn week_hours() -> spec_fn(WeekHours) -> int {
    |w: WeekHours| w.hours
}

/// The sum of the hours of `weeks`.
pub open spec fn sum_weeks(weeks: Seq<WeekHours>) -> int {
    sum_by(weeks, week_hours())
}

impl MonthHours {
    /// Whether a period with this week number was entered.
    pub open spec fn has_week(self, week: int) -> bool {
        exists|i: int| 0 <= i < self.weeks.len() && self.weeks[i].week == week
    }

    /// Where the period with this week number stands.
    pub open spec fn week_index(self, week: int) -> int {
        choose|i: int| 0 <= i < self.weeks.len() && self.weeks[i].week == week
    }

    /// No week number stands twice, no period has negative hours, and the
    /// total is the sum of the periods.
    pub open spec fn wf(self) -> bool {
        &&& forall|i: int, j: int|
            0 <= i < j < self.weeks.len() ==> self.weeks[i].week != self.weeks[j].week
        &&& forall|i: int| 0 <= i < self.weeks.len() ==> self.weeks[i].hours >= 0
        &&& self.total == sum_weeks(self.weeks)
    }

    /// The month after `hours` were entered for the period `week`: added to
    /// the period where it stands already, else entered as a new period at
    /// the end; and added to the total.
    pub open spec fn record(self, week: int, hours: int) -> MonthHours {
        let i = self.week_index(week);
        MonthHours {
            month: self.month,
            total: self.total + hours,
            weeks: if self.has_week(week) {
                self.weeks.update(i, WeekHours { week, hours: self.weeks[i].hours + hours })
            } else {
                self.weeks.push(WeekHours { week, hours })
            },
        }
    }

    /// A month without periods.
    pub open spec fn empty(month: int) -> MonthHours {
        MonthHours { month, total: 0, weeks: Seq::empty() }
    }
}

/// Entering hours keeps a month in order.
pub proof fn lemma_month_record_wf(m: MonthHours, week: int, hours: int)
    requires
        m.wf(),
        hours >= 0,
    ensures
        m.record(week, hours).wf(),
        m.record(week, hours).total == m.total + hours,
        m.record(week, hours).month == m.month,
{
    if m.has_week(week) {
        let i = m.week_index(week);
        lemma_sum_update(
            m.weeks,
            week_hours(),
            i,
            WeekHours { week, hours: m.weeks[i].hours + hours },
        );
    } else {
        lemma_sum_push(m.weeks, week_hours(), WeekHours { week, hours });
    }
}

/// The months of one year, in the order in which they were first entered,
/// and the total of their hours.
pub struct YearHours {
    pub year: int,
    pub total: int,
    pub months: Seq<MonthHours>,
}

/// The total of a month.
pub open spec fn month_total() -> spec_fn(MonthHours) -> int {
    |m: MonthHours| m.total
}

/// The sum of the totals of `months`.
pub open spec fn sum_months(months: Seq<MonthHours>) -> int {
    sum_by(months, month_total())
}

impl YearHours {
    /// Whether this month was entered.
    pub open spec fn has_month(self, month: int) -> bool {
        exists|i: int| 0 <= i < self.months.len() && self.months[i].month == month
    }

    /// Where this month stands, or will stand once it is entered.
    pub open spec fn month_index(self, month: int) -> int {
        if self.has_month(month) {
            choose|i: int| 0 <= i < self.months.len() && self.months[i].month == month
        } else {
            self.months.len() as int
        }
    }

    /// No month stands twice, each month is in order, and the total is the
    /// sum of the months' totals.
    pub open spec fn wf(self) -> bool {
        &&& forall|i: int, j: int|
            0 <= i < j < self.months.len() ==> self.months[i].month != self.months[j].month
        &&& forall|i: int| 0 <= i < self.months.len() ==> self.months[i].wf()
        &&& self.total == sum_months(self.months)
    }

    /// The months with `month` entered at the end where it was missing.
    pub open spec fn with_month(self, month: int) -> Seq<MonthHours> {
        if self.has_month(month) {
            self.months
        } else {
            self.months.push(MonthHours::empty(month))
        }
    }

    /// The year after `hours` were entered for the period `week` of `month`.
    pub open spec fn record(self, month: int, week: int, hours: int) -> YearHours {
        let i = self.month_index(month);
        let months = self.with_month(month);
        YearHours {
            year: self.year,
            total: self.total + hours,
            months: months.update(i, months[i].record(week, hours)),
        }
    }

    /// A year without months.
    pub open spec fn empty(year: int) -> YearHours {
        YearHours { year, total: 0, months: Seq::empty() }
    }
}

/// The total of a month in order is not negative.
pub proof fn lemma_month_total_nonnegative(m: MonthHours)
    requires
        m.wf(),
    ensures
        m.total >= 0,
{
    lemma_sum_nonnegative(m.weeks, week_hours());
}

/// Entering hours keeps a year in order.
pub proof fn lemma_year_record_wf(y: YearHours, month: int, week: int, hours: int)
    requires
        y.wf(),
        hours >= 0,
    ensures
        y.record(month, week, hours).wf(),
        y.record(month, week, hours).total == y.total + hours,
        y.record(month, week, hours).year == y.year,
        0 <= y.month_index(month) < y.with_month(month).len(),
        y.with_month(month)[y.month_index(month)].month == month,
        y.with_month(month)[y.month_index(month)].wf(),
{
    let i = y.month_index(month);
    let months = y.with_month(month);
    if !y.has_month(month) {
        lemma_sum_push(y.months, month_total(), MonthHours::empty(month));
    }
    lemma_month_record_wf(months[i], week, hours);
    lemma_sum_update(months, month_total(), i, months[i].record(week, hours));
}

/// The years of a range, in the order in which they were first entered, and
/// the total of their hours.
pub struct TreeHours {
    pub total: int,
    pub years: Seq<YearHours>,
}

/// The total of a year.
pub open spec fn year_total() -> spec_fn(YearHours) -> int {
    |y: YearHours| y.total
}

/// The sum of the totals of `years`.
pub open spec fn sum_years(years: Seq<YearHours>) -> int {
    sum_by(years, year_total())
}

impl TreeHours {
    /// Whether this year was entered.
    pub open spec fn has_year(self, year: int) -> bool {
        exists|i: int| 0 <= i < self.years.len() && self.years[i].year == year
    }

    /// Where this year stands, or will stand once it is entered.
    pub open spec fn year_index(self, year: int) -> int {
        if self.has_year(year) {
            choose|i: int| 0 <= i < self.years.len() && self.years[i].year == year
        } else {
            self.years.len() as int
        }
    }

    /// No year stands twice, each year is in order, and the total is the sum
    /// of the years' totals.
    pub open spec fn wf(self) -> bool {
        &&& forall|i: int, j: int|
            0 <= i < j < self.years.len() ==> self.years[i].year != self.years[j].year
        &&& forall|i: int| 0 <= i < self.years.len() ==> self.years[i].wf()
        &&& self.total == sum_years(self.years)
    }

    /// The years with `year` entered at the end where it was missing.
    pub open spec fn with_year(self, year: int) -> Seq<YearHours> {
        if self.has_year(year) {
            self.years
        } else {
            self.years.push(YearHours::empty(year))
        }
    }

    /// The tree after `hours` were entered for the period `week` of `month`
    /// of `year`: the year and the month are entered first where they were
    /// missing, and the hours are added to the period and to the three totals
    /// above it.
    pub open spec fn record(self, year: int, month: int, week: int, hours: int) -> TreeHours {
        let i = self.year_index(year);
        let years = self.with_year(year);
        TreeHours {
            total: self.total + hours,
            years: years.update(i, years[i].record(month, week, hours)),
        }
    }

    /// A tree without years.
    pub open spec fn empty() -> TreeHours {
        TreeHours { total: 0, years: Seq::empty() }
    }
}

/// The total of a year in order is not negative.
pub proof fn lemma_year_total_nonnegative(y: YearHours)
    requires
        y.wf(),
    ensures
        y.total >= 0,
{
    assert forall|j: int| 0 <= j < y.months.len() implies month_total()(y.months[j]) >= 0 by {
        lemma_month_total_nonnegative(y.months[j]);
    }
    lemma_sum_nonnegative(y.months, month_total());
}

/// Entering hours keeps a tree in order.
pub proof fn lemma_tree_record_wf(t: TreeHours, year: int, month: int, week: int, hours: int)
    requires
        t.wf(),
        hours >= 0,
    ensures
        t.record(year, month, week, hours).wf(),
        t.record(year, month, week, hours).total == t.total + hours,
        0 <= t.year_index(year) < t.with_year(year).len(),
        t.with_year(year)[t.year_index(year)].year == year,
        t.with_year(year)[t.year_index(year)].wf(),
{
    let i = t.year_index(year);
    let years = t.with_year(year);
    if !t.has_year(year) {
        lemma_sum_push(t.years, year_total(), YearHours::empty(year));
    }
    lemma_year_record_wf(years[i], month, week, hours);
    lemma_sum_update(years, year_total(), i, years[i].record(month, week, hours));
}

/// Two measures that agree on every item of `s` have the same sum over `s`.
pub proof fn lemma_sum_same<T>(s: Seq<T>, f: spec_fn(T) -> int, g: spec_fn(T) -> int)
    requires
        forall|j: int| 0 <= j < s.len() ==> f(s[j]) == g(s[j]),
    ensures
        sum_by(s, f) == sum_by(s, g),
    decreases s.len(),
{
    if s.len() > 0 {
        lemma_sum_same(s.drop_last(), f, g);
    }
}

/// The sum of the hours of the periods of a month.
pub open spec fn month_period_hours() -> spec_fn(MonthHours) -> int {
    |m: MonthHours| sum_weeks(m.weeks)
}

/// The sum of the totals of the months of a year.
pub open spec fn year_month_totals() -> spec_fn(YearHours) -> int {
    |y: YearHours| sum_months(y.months)
}

/// The sum of the hours of all periods of a year.
pub open spec fn year_period_hours() -> spec_fn(YearHours) -> int {
    |y: YearHours| sum_by(y.months, month_period_hours())
}

impl TreeHours {
    /// The sum of the totals of all years.
    pub open spec fn sum_of_year_totals(self) -> int {
        sum_years(self.years)
    }

    /// The sum of the totals of all months of all years.
    pub open spec fn sum_of_month_totals(self) -> int {
        sum_by(self.years, year_month_totals())
    }

    /// The sum of the hours of all periods of all months of all years.
    pub open spec fn sum_of_period_hours(self) -> int {
        sum_by(self.years, year_period_hours())
    }
}

/// In a tree that is in order, the total of the range, the sum of the years'
/// totals, the sum of the months' totals and the sum of the periods' hours
/// are one and the same number.
pub proof fn lemma_totals_agree(t: TreeHours)
    requires
        t.wf(),
    ensures
        t.total == t.sum_of_year_totals(),
        t.sum_of_year_totals() == t.sum_of_month_totals(),
        t.sum_of_month_totals() == t.sum_of_period_hours(),
{
    assert forall|j: int| 0 <= j < t.years.len() implies year_total()(t.years[j])
        == year_month_totals()(t.years[j]) && year_month_totals()(t.years[j])
        == year_period_hours()(t.years[j]) by {
        let y = t.years[j];
        assert(y.wf());
        assert forall|k: int| 0 <= k < y.months.len() implies month_total()(y.months[k])
            == month_period_hours()(y.months[k]) by {
            assert(y.months[k].wf());
        }
        lemma_sum_same(y.months, month_total(), month_period_hours());
    }
    lemma_sum_same(t.years, year_total(), year_month_totals());
    lemma_sum_same(t.years, year_month_totals(), year_period_hours());
}

impl YearHours {
    /// The months stand in rising order.
    pub open spec fn months_rising(self) -> bool {
        forall|i: int, j: int|
            0 <= i < j < self.months.len() ==> self.months[i].month < self.months[j].month
    }

    /// Whether `month` is the last month entered or a later one.
    pub open spec fn month_may_follow(self, month: int) -> bool {
        self.months.len() > 0 ==> self.months.last().month <= month
    }
}

impl TreeHours {
    /// The years stand in rising order, and so do the months of each year.
    pub open spec fn in_calendar_order(self) -> bool {
        &&& forall|i: int, j: int|
            0 <= i < j < self.years.len() ==> self.years[i].year < self.years[j].year
        &&& forall|i: int| 0 <= i < self.years.len() ==> self.years[i].months_rising()
    }

    /// Whether `month` of `year` is the last month entered or a later one.
    pub open spec fn month_may_follow(self, year: int, month: int) -> bool {
        self.years.len() > 0 ==> self.years.last().year < year || (self.years.last().year == year
            && self.years.last().month_may_follow(month))
    }

    /// Whether `month` of `year` is the last month entered.
    pub open spec fn ends_with(self, year: int, month: int) -> bool {
        &&& self.years.len() > 0
        &&& self.years.last().year == year
        &&& self.years.last().months.len() > 0
        &&& self.years.last().months.last().month == month
    }
}

/// Hours entered for the last month of a year, or for a later one, leave the
/// months in rising order, with that month last.
pub proof fn lemma_year_record_keeps_order(y: YearHours, month: int, week: int, hours: int)
    requires
        y.months_rising(),
        y.month_may_follow(month),
    ensures
        y.record(month, week, hours).months_rising(),
        y.record(month, week, hours).year == y.year,
        y.record(month, week, hours).months.len() > 0,
        y.record(month, week, hours).months.last().month == month,
{
    let i = y.month_index(month);
    if y.has_month(month) {
        assert(i == y.months.len() - 1);
    }
}

/// Hours entered for the last month of a tree, or for a later one, leave the
/// tree in calendar order, with that month last.
pub proof fn lemma_tree_record_keeps_order(
    t: TreeHours,
    year: int,
    month: int,
    week: int,
    hours: int,
)
    requires
        t.in_calendar_order(),
        t.month_may_follow(year, month),
    ensures
        t.record(year, month, week, hours).in_calendar_order(),
        t.record(year, month, week, hours).ends_with(year, month),
{
    let i = t.year_index(year);
    let years = t.with_year(year);
    if t.has_year(year) {
        assert(i == t.years.len() - 1);
    }
    lemma_year_record_keeps_order(years[i], month, week, hours);
}

} // verus!
