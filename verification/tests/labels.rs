//! The keys of years, months and reporting periods.

use time_tally::calendar::Date;
use time_tally::labels::{month_key, week_label, year_key};
use time_tally::period::{period_name, period_week_number};

fn date(year: i32, month: u32, day: u32) -> Date {
    Date::from_ymd_opt(year, month, day).unwrap()
}

#[test]
fn week_labels_hold_the_week_number() {
    assert_eq!(week_label(1), "week: 1");
    assert_eq!(week_label(9), "week: 9");
    assert_eq!(week_label(10), "week: 10");
    assert_eq!(week_label(53), "week: 53");
    assert_eq!(week_label(0), "week: 0");
    assert_eq!(week_label(4294967295), "week: 4294967295");
}

#[test]
fn year_keys_are_the_year_in_digits() {
    assert_eq!(year_key(2024), "2024");
    assert_eq!(year_key(0), "0");
    assert_eq!(year_key(987), "987");
    assert_eq!(year_key(-5), "-5");
    assert_eq!(year_key(-262143), "-262143");
    assert_eq!(year_key(i32::MIN), "-2147483648");
}

#[test]
fn month_keys_hold_number_and_name() {
    let names = [
        "01-January",
        "02-February",
        "03-March",
        "04-April",
        "05-May",
        "06-June",
        "07-July",
        "08-August",
        "09-September",
        "10-October",
        "11-November",
        "12-December",
    ];
    for month in 1..=12u32 {
        assert_eq!(month_key(&date(2024, month, 15)), names[(month - 1) as usize]);
    }
}

#[test]
fn a_plain_week_is_named_by_its_week() {
    assert_eq!(period_name(&date(2024, 1, 1), &date(2024, 1, 7)), "week: 1");
    assert_eq!(period_name(&date(2024, 5, 6), &date(2024, 5, 12)), "week: 19");
}

#[test]
fn a_period_with_a_joined_tail_is_named_by_its_first_week() {
    // 23 to 30 September 2024: the Monday of week 40 is joined to week 39.
    assert_eq!(period_week_number(&date(2024, 9, 23), &date(2024, 9, 30)), 39);
    assert_eq!(period_name(&date(2024, 9, 23), &date(2024, 9, 30)), "week: 39");
    // 23 to 31 December 2024 ends in week 1 of 2025.
    assert_eq!(period_name(&date(2024, 12, 23), &date(2024, 12, 31)), "week: 52");
}

#[test]
fn a_period_with_a_joined_head_is_named_by_its_last_week() {
    // 1 to 11 August 2024 begins on a Thursday of week 31.
    assert_eq!(period_name(&date(2024, 8, 1), &date(2024, 8, 11)), "week: 32");
    // 1 to 5 January 2025 begins on a Wednesday.
    assert_eq!(period_name(&date(2025, 1, 1), &date(2025, 1, 5)), "week: 1");
}

#[test]
fn a_cut_week_is_named_by_its_last_day() {
    // 29 to 31 January 2024 begins on a Monday but is short.
    assert_eq!(period_name(&date(2024, 1, 29), &date(2024, 1, 31)), "week: 5");
    // 1 to 3 January 2021 lies in week 53 of 2020.
    assert_eq!(period_name(&date(2021, 1, 1), &date(2021, 1, 3)), "week: 53");
}
