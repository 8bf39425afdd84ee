//! Dates, month lengths and the order of dates.

use time_tally::calendar::Date;

fn date(year: i32, month: u32, day: u32) -> Date {
    Date::from_ymd_opt(year, month, day).unwrap()
}

#[test]
fn existing_dates_are_built() {
    let d = date(2024, 2, 29);
    assert_eq!((d.year(), d.month(), d.day()), (2024, 2, 29));
    assert!(Date::from_ymd_opt(-4, 2, 29).is_some());
    assert!(Date::from_ymd_opt(262142, 12, 31).is_some());
    assert!(Date::from_ymd_opt(-262143, 1, 1).is_some());
}

#[test]
fn missing_dates_are_refused() {
    assert_eq!(Date::from_ymd_opt(2023, 2, 29), None);
    assert_eq!(Date::from_ymd_opt(2023, 4, 31), None);
    assert_eq!(Date::from_ymd_opt(2023, 0, 1), None);
    assert_eq!(Date::from_ymd_opt(2023, 13, 1), None);
    assert_eq!(Date::from_ymd_opt(2023, 1, 0), None);
    assert_eq!(Date::from_ymd_opt(262143, 1, 1), None);
    assert_eq!(Date::from_ymd_opt(-262144, 12, 31), None);
}

#[test]
fn leap_years_follow_the_gregorian_rule() {
    assert!(date(2024, 1, 1).is_leap_year());
    assert!(date(2000, 1, 1).is_leap_year());
    assert!(!date(1900, 1, 1).is_leap_year());
    assert!(!date(2023, 1, 1).is_leap_year());
    assert!(date(-4, 1, 1).is_leap_year());
    assert!(!date(-100, 1, 1).is_leap_year());
}

#[test]
fn months_have_their_lengths() {
    let lengths_2023 = [31, 28, 31, 30, 31, 30, 31, 31, 30, 31, 30, 31];
    for month in 1..=12u32 {
        assert_eq!(date(2023, month, 1).days_in_month(), lengths_2023[(month - 1) as usize]);
    }
    assert_eq!(date(2024, 2, 10).days_in_month(), 29);
    assert_eq!(date(1900, 2, 10).days_in_month(), 28);
    assert_eq!(date(2000, 2, 10).days_in_month(), 29);
}

#[test]
fn dates_are_ordered_by_year_month_and_day() {
    assert!(date(2024, 1, 1).le(&date(2024, 1, 1)));
    assert!(date(2023, 12, 31).le(&date(2024, 1, 1)));
    assert!(!date(2024, 1, 1).le(&date(2023, 12, 31)));
    assert!(date(2024, 1, 31).le(&date(2024, 2, 1)));
    assert!(!date(2024, 2, 1).le(&date(2024, 1, 31)));
    assert!(date(2024, 2, 1).le(&date(2024, 2, 2)));
    assert!(!date(2024, 2, 2).le(&date(2024, 2, 1)));
}
