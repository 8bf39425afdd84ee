//! Entering hours into a tree by hand.

use time_tally::hours_tree::{Month, WorkHours, Year};

#[test]
fn a_new_tree_is_empty() {
    let tree = WorkHours::new();
    assert_eq!(tree.total(), 0);
    assert!(tree.years().is_empty());
}

#[test]
fn hours_are_added_to_every_level() {
    let mut tree = WorkHours::new();
    tree.record(2024, 3, 10, 40);
    tree.record(2024, 3, 11, 32);
    tree.record(2024, 4, 14, 24);
    tree.record(2025, 1, 1, 16);
    assert_eq!(tree.total(), 112);
    assert_eq!(tree.years().len(), 2);
    let first = &tree.years()[0];
    assert_eq!((first.year(), first.total(), first.months().len()), (2024, 96, 2));
    let march = &first.months()[0];
    assert_eq!((march.month(), march.total(), march.weeks().len()), (3, 72, 2));
    assert_eq!((march.weeks()[0].week(), march.weeks()[0].hours()), (10, 40));
    assert_eq!((march.weeks()[1].week(), march.weeks()[1].hours()), (11, 32));
    let april = &first.months()[1];
    assert_eq!((april.month(), april.total(), april.weeks().len()), (4, 24, 1));
    let second = &tree.years()[1];
    assert_eq!((second.year(), second.total(), second.months().len()), (2025, 16, 1));
}

#[test]
fn hours_for_a_known_period_are_added_to_it() {
    let mut tree = WorkHours::new();
    tree.record(2024, 3, 10, 40);
    tree.record(2024, 4, 14, 8);
    tree.record(2024, 3, 10, 16);
    assert_eq!(tree.total(), 64);
    assert_eq!(tree.years().len(), 1);
    let year = &tree.years()[0];
    assert_eq!(year.months().len(), 2);
    assert_eq!(year.months()[0].weeks().len(), 1);
    assert_eq!(year.months()[0].weeks()[0].hours(), 56);
    assert_eq!(year.months()[0].total(), 56);
    assert_eq!(year.months()[1].total(), 8);
}

#[test]
fn the_same_week_number_is_kept_apart_by_month_and_year() {
    let mut tree = WorkHours::new();
    tree.record(2024, 12, 1, 8);
    tree.record(2024, 1, 1, 32);
    tree.record(2025, 1, 1, 16);
    assert_eq!(tree.total(), 56);
    assert_eq!(tree.years()[0].months()[0].month(), 12);
    assert_eq!(tree.years()[0].months()[0].weeks()[0].hours(), 8);
    assert_eq!(tree.years()[0].months()[1].month(), 1);
    assert_eq!(tree.years()[0].months()[1].weeks()[0].hours(), 32);
    assert_eq!(tree.years()[1].months()[0].weeks()[0].hours(), 16);
}

#[test]
fn a_period_without_hours_is_kept() {
    let mut tree = WorkHours::new();
    tree.record(2024, 1, 1, 0);
    assert_eq!(tree.total(), 0);
    assert_eq!(tree.years()[0].months()[0].weeks().len(), 1);
    assert_eq!(tree.years()[0].months()[0].weeks()[0].week(), 1);
}

#[test]
fn months_and_years_can_be_filled_on_their_own() {
    let mut month = Month::new(7);
    month.record(27, 40);
    month.record(28, 40);
    month.record(27, 8);
    assert_eq!((month.month(), month.total(), month.weeks().len()), (7, 88, 2));
    let mut year = Year::new(2030);
    assert_eq!((year.year(), year.total(), year.months().len()), (2030, 0, 0));
    year.record(7, 27, 40);
    year.record(8, 31, 16);
    year.record(7, 28, 24);
    assert_eq!((year.total(), year.months().len()), (80, 2));
    assert_eq!(year.months()[0].total(), 64);
}
