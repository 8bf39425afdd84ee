//! The holidays of single years and of spans of years.

use time_tally::calendar::Date;
use time_tally::holidays::{
    easter, easter_days, for_years, get_year_holidays, midsummer, national_day,
};

fn date(year: i32, month: u32, day: u32) -> Date {
    Date::from_ymd_opt(year, month, day).unwrap()
}

#[test]
fn holidays_of_2024() {
    let days = get_year_holidays(2024).unwrap();
    let expected = [
        date(2024, 1, 1),
        date(2024, 1, 6),
        date(2024, 5, 1),
        date(2024, 12, 24),
        date(2024, 12, 25),
        date(2024, 12, 26),
        date(2024, 12, 31),
        date(2024, 3, 29),
        date(2024, 4, 1),
        date(2024, 5, 10),
        date(2024, 6, 28),
        date(2024, 6, 6),
    ];
    assert_eq!(days, expected);
}

#[test]
fn easter_days_follow_easter_sunday() {
    // Easter Sunday is 31 March in 2024 and 20 April in 2025.
    assert_eq!(easter(2024).unwrap(), [date(2024, 3, 29), date(2024, 4, 1), date(2024, 5, 10)]);
    assert_eq!(easter(2025).unwrap(), [date(2025, 4, 18), date(2025, 4, 21), date(2025, 5, 30)]);
}

#[test]
fn easter_is_limited_to_its_years() {
    assert_eq!(
        easter(1582).unwrap_err(),
        "Easter can only be computed for the years 1583 to 9999"
    );
    assert_eq!(
        easter(10000).unwrap_err(),
        "Easter can only be computed for the years 1583 to 9999"
    );
    assert!(easter(1583).is_ok());
    assert!(easter(9999).is_ok());
}

#[test]
fn midsummer_is_the_last_friday_of_june() {
    assert_eq!(midsummer(2024), Ok(date(2024, 6, 28)));
    assert_eq!(midsummer(2025), Ok(date(2025, 6, 27)));
    assert_eq!(midsummer(2026), Ok(date(2026, 6, 26)));
    // 30 June 2023 is a Friday itself, 24 June 2022 is the earliest case.
    assert_eq!(midsummer(2023), Ok(date(2023, 6, 30)));
    assert_eq!(midsummer(2022), Ok(date(2022, 6, 24)));
    assert_eq!(
        midsummer(400000).unwrap_err(),
        "Failed when initiating midsummer date calculation"
    );
}

#[test]
fn national_day_moves_off_the_weekend() {
    // Thursday in 2024, Saturday in 2026, Sunday in 2021.
    assert_eq!(national_day(2024), Ok(date(2024, 6, 6)));
    assert_eq!(national_day(2026), Ok(date(2026, 6, 5)));
    assert_eq!(national_day(2021), Ok(date(2021, 6, 4)));
    assert_eq!(national_day(2025), Ok(date(2025, 6, 6)));
    assert_eq!(national_day(-400000).unwrap_err(), "Failed to calculate the national day");
}

#[test]
fn holidays_of_several_years_come_year_by_year() {
    let days = for_years(2023, 2025).unwrap();
    assert_eq!(days.len(), 36);
    assert_eq!(&days[0..12], &get_year_holidays(2023).unwrap()[..]);
    assert_eq!(&days[12..24], &get_year_holidays(2024).unwrap()[..]);
    assert_eq!(&days[24..36], &get_year_holidays(2025).unwrap()[..]);
}

#[test]
fn an_empty_span_of_years_has_no_holidays() {
    assert_eq!(for_years(2025, 2024), Ok(Vec::new()));
    assert_eq!(for_years(12000, 11000), Ok(Vec::new()));
}

#[test]
fn years_without_holidays_are_reported() {
    assert_eq!(
        for_years(1500, 2024).unwrap_err(),
        "Easter can only be computed for the years 1583 to 9999"
    );
    assert_eq!(
        for_years(9998, 10001).unwrap_err(),
        "Easter can only be computed for the years 1583 to 9999"
    );
    assert_eq!(for_years(300000, 300001).unwrap_err(), "Failed to initiate fixed date");
    assert_eq!(get_year_holidays(-300000).unwrap_err(), "Failed to initiate fixed date");
}

#[test]
fn easter_days_go_by_the_sunday() {
    assert_eq!(
        easter_days(&date(2024, 3, 31)),
        Ok([date(2024, 3, 29), date(2024, 4, 1), date(2024, 5, 10)])
    );
    // Over the ends of months and of a leap-year February.
    assert_eq!(
        easter_days(&date(2024, 3, 1)),
        Ok([date(2024, 2, 28), date(2024, 3, 2), date(2024, 4, 10)])
    );
    assert_eq!(
        easter_days(&date(2023, 12, 31)),
        Ok([date(2023, 12, 29), date(2024, 1, 1), date(2024, 2, 9)])
    );
}

#[test]
fn easter_days_stay_within_the_calendar() {
    assert_eq!(
        easter_days(&date(-262143, 1, 2)).unwrap_err(),
        "Failed to calculate Good Friday"
    );
    assert_eq!(
        easter_days(&date(262142, 12, 31)).unwrap_err(),
        "Failed to calculate Easter Monday"
    );
    assert_eq!(
        easter_days(&date(262142, 12, 1)).unwrap_err(),
        "Failed to calculate Ascension Day"
    );
    assert_eq!(
        easter_days(&date(-262143, 1, 3)),
        Ok([date(-262143, 1, 1), date(-262143, 1, 4), date(-262143, 2, 12)])
    );
    assert_eq!(
        easter_days(&date(262142, 11, 21)),
        Ok([date(262142, 11, 19), date(262142, 11, 22), date(262142, 12, 31)])
    );
}

#[test]
fn weekdays_are_right_in_far_years() {
    assert_eq!(midsummer(1583), Ok(date(1583, 6, 24)));
    assert_eq!(midsummer(1600), Ok(date(1600, 6, 30)));
    assert_eq!(midsummer(1900), Ok(date(1900, 6, 29)));
    assert_eq!(midsummer(2100), Ok(date(2100, 6, 25)));
    assert_eq!(midsummer(9999), Ok(date(9999, 6, 25)));
    assert_eq!(national_day(1583), Ok(date(1583, 6, 6)));
    assert_eq!(national_day(2100), Ok(date(2100, 6, 4)));
    assert_eq!(national_day(9999), Ok(date(9999, 6, 4)));
}
