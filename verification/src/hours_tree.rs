//! The hours of a range of days, kept by year, month and reporting period,
//! with the total at each level.

use crate::hours_model::{
    lemma_month_record_wf, lemma_month_total_nonnegative, lemma_sum_bounds, lemma_sum_push,
    lemma_tree_record_wf, lemma_year_record_wf, lemma_year_total_nonnegative, month_total,
    week_hours, year_total, MonthHours, TreeHours, WeekHours, YearHours,
};
use vstd::prelude::*;

verus! {

/// One reporting period of a month and its hours.
#[derive(Clone, Copy, Debug)]
pub struct Week {
    week: u32,
    hours: u32,
}

impl View for Week {
    type V = WeekHours;

    closed spec fn view(&self) -> WeekHours {
        WeekHours { week: self.week as int, hours: self.hours as int }
    }
}

impl Week {
    /// The ISO week number by which the period is known.
    pub fn week(&self) -> (r: u32)
        ensures
            r == self@.week,
    {
        self.week
    }

    /// The working hours of the period.
    pub fn hours(&self) -> (r: u32)
        ensures
            r == self@.hours,
    {
        self.hours
    }
}

/// One month of a year: its periods and the total of their hours.
#[derive(Debug)]
pub struct Month {
    month: u32,
    weeks: Vec<Week>,
    total: u32,
}

impl View for Month {
    type V = MonthHours;

    closed spec fn view(&self) -> MonthHours {
        MonthHours {
            month: self.month as int,
            total: self.total as int,
            weeks: self.weeks@.map_values(|w: Week| w@),
        }
    }
}

impl Month {
    /// The month's view is in order.
    pub open spec fn wf(&self) -> bool {
        self@.wf()
    }

    /// A month without periods.
    pub fn new(month: u32) -> (r: Month)
        ensures
            r@ == MonthHours::empty(month as int),
            r.wf(),
    {
        let r = Month { month, weeks: Vec::new(), total: 0 };
        assert(r@.weeks =~= Seq::empty());
        r
    }

    /// The number of the month, from 1 for January.
    pub fn month(&self) -> (r: u32)
        ensures
            r == self@.month,
    {
        self.month
    }

    /// The working hours of the month.
    pub fn total(&self) -> (r: u32)
        ensures
            r == self@.total,
    {
        self.total
    }

    /// The periods of the month, in the order in which they were first entered.
    pub fn weeks(&self) -> (r: &Vec<Week>)
        ensures
            r@.len() == self@.weeks.len(),
            forall|i: int| 0 <= i < r@.len() ==> r@[i]@ == self@.weeks[i],
    {
        &self.weeks
    }

    /// Enters `hours` for the period `week`.
    pub fn record(&mut self, week: u32, hours: u32)
        requires
            old(self).wf(),
            old(self)@.total + hours <= u32::MAX,
        ensures
            final(self)@ == old(self)@.record(week as int, hours as int),
            final(self).wf(),
    {
        proof {
            lemma_month_record_wf(self@, week as int, hours as int);
        }
        let ghost before = self@;
        let mut i: usize = 0;
        while i < self.weeks.len() && self.weeks[i].week != week
            invariant
                0 <= i <= self.weeks.len(),
                forall|j: int| 0 <= j < i ==> self.weeks@[j].week != week,
            decreases self.weeks.len() - i,
        {
            i += 1;
        }
        if i < self.weeks.len() {
            let entry: Week = self.weeks[i];
            proof {
                assert(before.weeks[i as int] == entry@);
                assert(before.has_week(week as int));
                lemma_sum_bounds(before.weeks, week_hours(), i as int);
            }
            self.weeks[i] = Week { week, hours: entry.hours + hours };
        } else {
            proof {
                assert forall|j: int| 0 <= j < before.weeks.len() implies before.weeks[j].week
                    != week by {
                    assert(before.weeks[j] == self.weeks@[j]@);
                }
            }
            self.weeks.push(Week { week, hours });
        }
        self.total = self.total + hours;
        assert(self@.weeks =~= before.record(week as int, hours as int).weeks);
    }
}

/// One year of a range: its months and the total of their hours.
#[derive(Debug)]
pub struct Year {
    year: i32,
    months: Vec<Month>,
    total: u32,
}

impl View for Year {
    type V = YearHours;

    closed spec fn view(&self) -> YearHours {
        YearHours {
            year: self.year as int,
            total: self.total as int,
            months: self.months@.map_values(|m: Month| m@),
        }
    }
}

impl Year {
    /// The year's view is in order.
    pub open spec fn wf(&self) -> bool {
        self@.wf()
    }

    /// A year without months.
    pub fn new(year: i32) -> (r: Year)
        ensures
            r@ == YearHours::empty(year as int),
            r.wf(),
    {
        let r = Year { year, months: Vec::new(), total: 0 };
        assert(r@.months =~= Seq::empty());
        r
    }

    /// The number of the year.
    pub fn year(&self) -> (r: i32)
        ensures
            r == self@.year,
    {
        self.year
    }

    /// The working hours of the year.
    pub fn total(&self) -> (r: u32)
        ensures
            r == self@.total,
    {
        self.total
    }

    /// The months of the year, in the order in which they were first entered.
    pub fn months(&self) -> (r: &Vec<Month>)
        ensures
            r@.len() == self@.months.len(),
            forall|i: int| 0 <= i < r@.len() ==> r@[i]@ == self@.months[i],
    {
        &self.months
    }

    /// Enters `hours` for the period `week` of `month`.
    pub fn record(&mut self, month: u32, week: u32, hours: u32)
        requires
            old(self).wf(),
            old(self)@.total + hours <= u32::MAX,
        ensures
            final(self)@ == old(self)@.record(month as int, week as int, hours as int),
            final(self).wf(),
    {
        let ghost before = self@;
        proof {
            lemma_year_record_wf(before, month as int, week as int, hours as int);
        }
        let mut i: usize = 0;
        while i < self.months.len() && self.months[i].month != month
            invariant
                0 <= i <= self.months.len(),
                forall|j: int| 0 <= j < i ==> self.months@[j].month != month,
            decreases self.months.len() - i,
        {
            i += 1;
        }
        if i == self.months.len() {
            proof {
                assert forall|j: int| 0 <= j < before.months.len() implies before.months[j].month
                    != month by {
                    assert(before.months[j] == self.months@[j]@);
                }
            }
            self.months.push(Month::new(month));
        } else {
            proof {
                assert(before.months[i as int] == self.months@[i as int]@);
                assert(before.has_month(month as int));
            }
        }
        let ghost filled = before.with_month(month as int);
        proof {
            assert(self.months@.map_values(|m: Month| m@) =~= filled);
            assert(filled[i as int] == self.months@[i as int]@);
            assert forall|j: int| 0 <= j < filled.len() implies month_total()(filled[j]) >= 0 by {
                if j < before.months.len() {
                    lemma_month_total_nonnegative(before.months[j]);
                }
            }
            lemma_sum_bounds(filled, month_total(), i as int);
            if !before.has_month(month as int) {
                lemma_sum_push(before.months, month_total(), MonthHours::empty(month as int));
            }
        }
        self.months[i].record(week, hours);
        self.total = self.total + hours;
        assert(self@.months =~= before.record(month as int, week as int, hours as int).months);
    }
}

/// The working hours of a range of days, by year, month and reporting
/// period, with the total of the range.
#[derive(Debug)]
pub struct WorkHours {
    years: Vec<Year>,
    total: u32,
}

impl View for WorkHours {
    type V = TreeHours;

    closed spec fn view(&self) -> TreeHours {
        TreeHours { total: self.total as int, years: self.years@.map_values(|y: Year| y@) }
    }
}

impl WorkHours {
    /// The tree's view is in order.
    pub open spec fn wf(&self) -> bool {
        self@.wf()
    }

    /// A tree without years.
    pub fn new() -> (r: WorkHours)
        ensures
            r@ == TreeHours::empty(),
            r.wf(),
    {
        let r = WorkHours { years: Vec::new(), total: 0 };
        assert(r@.years =~= Seq::empty());
        r
    }

    /// The working hours of the whole range.
    pub fn total(&self) -> (r: u32)
        ensures
            r == self@.total,
    {
        self.total
    }

    /// The years of the range, in the order in which they were first entered.
    pub fn years(&self) -> (r: &Vec<Year>)
        ensures
            r@.len() == self@.years.len(),
            forall|i: int| 0 <= i < r@.len() ==> r@[i]@ == self@.years[i],
    {
        &self.years
    }

    /// Enters `hours` for the period `week` of `month` of `year`.
    pub fn record(&mut self, year: i32, month: u32, week: u32, hours: u32)
        requires
            old(self).wf(),
            old(self)@.total + hours <= u32::MAX,
        ensures
            final(self)@ == old(self)@.record(
                year as int,
                month as int,
                week as int,
                hours as int,
            ),
            final(self).wf(),
    {
        let ghost before = self@;
        proof {
            lemma_tree_record_wf(before, year as int, month as int, week as int, hours as int);
        }
        let mut i: usize = 0;
        while i < self.years.len() && self.years[i].year != year
            invariant
                0 <= i <= self.years.len(),
                forall|j: int| 0 <= j < i ==> self.years@[j].year != year,
            decreases self.years.len() - i,
        {
            i += 1;
        }
        if i == self.years.len() {
            proof {
                assert forall|j: int| 0 <= j < before.years.len() implies before.years[j].year
                    != year by {
                    assert(before.years[j] == self.years@[j]@);
                }
            }
            self.years.push(Year::new(year));
        } else {
            proof {
                assert(before.years[i as int] == self.years@[i as int]@);
                assert(before.has_year(year as int));
            }
        }
        let ghost filled = before.with_year(year as int);
        proof {
            assert(self.years@.map_values(|y: Year| y@) =~= filled);
            assert(filled[i as int] == self.years@[i as int]@);
            assert forall|j: int| 0 <= j < filled.len() implies year_total()(filled[j]) >= 0 by {
                if j < before.years.len() {
                    lemma_year_total_nonnegative(before.years[j]);
                }
            }
            lemma_sum_bounds(filled, year_total(), i as int);
            if !before.has_year(year as int) {
                lemma_sum_push(before.years, year_total(), YearHours::empty(year as int));
            }
        }
        self.years[i].record(month, week, hours);
        self.total = self.total + hours;
        assert(self@.years =~= before.record(
            year as int,
            month as int,
            week as int,
            hours as int,
        ).years);
    }
}

} // verus!
