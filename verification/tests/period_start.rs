//! The first day of the reporting period, for dates at the start, in the
//! middle and at the end of a month.

use time_tally::calendar::Date;
use time_tally::period::period_boundaries;

//5-11 aug 2024 -> +4: (thu-sun): [1, 2, 3, 4, 5, 6, 7, 8, 9, 10, 11]
#[test]
fn workhours_early_period_4_1() {
    let startdate_ref = Date::from_ymd_opt(2024, 8, 1).unwrap();
    for day in 5..=11 {
        let (startdate, _) =
            period_boundaries(&Date::from_ymd_opt(2024, 8, day).unwrap()).unwrap();
        assert_eq!(startdate, startdate_ref);
    }
}

//1-4 aug 2024  -> +4: (thu-sun): [1, 2, 3, 4, 5, 6, 7, 8, 9, 10, 11]
#[test]
fn workhours_early_period_4_2() {
    let startdate_ref = Date::from_ymd_opt(2024, 8, 1).unwrap();
    for day in 1..=4 {
        let (startdate, _) =
            period_boundaries(&Date::from_ymd_opt(2024, 8, day).unwrap()).unwrap();
        assert_eq!(startdate, startdate_ref);
    }
}

//4-10 nov 2024 -> +3: (fri-sun): [1, 2, 3, 4, 5, 6, 7, 8, 9, 10]
#[test]
fn workhours_early_period_3_1() {
    let startdate_ref = Date::from_ymd_opt(2024, 11, 1).unwrap();
    for day in 4..=10 {
        let (startdate, _) =
            period_boundaries(&Date::from_ymd_opt(2024, 11, day).unwrap()).unwrap();
        assert_eq!(startdate, startdate_ref);
    }
}

//1-3 nov 2024  -> +3: (fri-sun): [1, 2, 3, 4, 5, 6, 7, 8, 9, 10]
#[test]
fn workhours_early_period_3_2() {
    let startdate_ref = Date::from_ymd_opt(2024, 11, 1).unwrap();
    for day in 1..=3 {
        let (startdate, _) =
            period_boundaries(&Date::from_ymd_opt(2024, 11, day).unwrap()).unwrap();
        assert_eq!(startdate, startdate_ref);
    }
}

//3-9 jun 2024  -> +2: (sat-sun): [1, 2, 3, 4, 5, 6, 7, 8, 9]
#[test]
fn workhours_early_period_2_1() {
    let startdate_ref = Date::from_ymd_opt(2024, 6, 1).unwrap();
    for day in 3..=9 {
        let (startdate, _) =
            period_boundaries(&Date::from_ymd_opt(2024, 6, day).unwrap()).unwrap();
        assert_eq!(startdate, startdate_ref);
    }
}

//1-2 jun 2024  -> +2: (sat-sun): [1, 2, 3, 4, 5, 6, 7, 8, 9]
#[test]
fn workhours_early_period_2_2() {
    let startdate_ref = Date::from_ymd_opt(2024, 6, 1).unwrap();
    for day in 1..=2 {
        let (startdate, _) =
            period_boundaries(&Date::from_ymd_opt(2024, 6, day).unwrap()).unwrap();
        assert_eq!(startdate, startdate_ref);
    }
}

//2-8 sep 2024  -> +1: (sun-sun): [1, 2, 3, 4, 5, 6, 7, 8]
#[test]
fn workhours_early_period_1_1() {
    let startdate_ref = Date::from_ymd_opt(2024, 9, 1).unwrap();
    for day in 2..=8 {
        let (startdate, _) =
            period_boundaries(&Date::from_ymd_opt(2024, 9, day).unwrap()).unwrap();
        assert_eq!(startdate, startdate_ref);
    }
}

//1 sep 2024    -> +1: (sun-sun): [1, 2, 3, 4, 5, 6, 7, 8]
#[test]
fn workhours_early_period_1_2() {
    let startdate_ref = Date::from_ymd_opt(2024, 9, 1).unwrap();
    let (startdate, _) =
        period_boundaries(&Date::from_ymd_opt(2024, 9, 1).unwrap()).unwrap();
    assert_eq!(startdate, startdate_ref);
}

//1-7 apr 2024  -> +0: (mon-sun): [1, 2, 3, 4, 5, 6, 7]
#[test]
fn workhours_early_period_0() {
    let startdate_ref = Date::from_ymd_opt(2024, 4, 1).unwrap();
    for day in 1..=7 {
        let (startdate, _) =
            period_boundaries(&Date::from_ymd_opt(2024, 4, day).unwrap()).unwrap();
        assert_eq!(startdate, startdate_ref);
    }
}

//1-6 okt 2024  -> -1: (tue-sun): [1, 2, 3, 4, 5, 6]
#[test]
fn workhours_early_period_neg1() {
    let startdate_ref = Date::from_ymd_opt(2024, 10, 1).unwrap();
    for day in 1..=6 {
        let (startdate, _) =
            period_boundaries(&Date::from_ymd_opt(2024, 10, day).unwrap()).unwrap();
        assert_eq!(startdate, startdate_ref);
    }
}

//1-5 may 2024  -> -2: (wed-sun): [1, 2, 3 , 4, 5]
#[test]
fn workhours_early_period_neg2() {
    let startdate_ref = Date::from_ymd_opt(2024, 5, 1).unwrap();
    for day in 1..=5 {
        let (startdate, _) =
            period_boundaries(&Date::from_ymd_opt(2024, 5, day).unwrap()).unwrap();
        assert_eq!(startdate, startdate_ref);
    }
}

//6-12 may 2024 -> +0: (mon-sun): [6, 7, 8, 9, 10, 11, 12]
#[test]
fn workhours_mid_period() {
    let startdate_ref = Date::from_ymd_opt(2024, 5, 6).unwrap();
    for day in 6..=12 {
        let (startdate, _) =
            period_boundaries(&Date::from_ymd_opt(2024, 5, day).unwrap()).unwrap();
        assert_eq!(startdate, startdate_ref);
    }
}

//22-28 apr 2024 -> +2 (mon-tue) [22, 23, 24, 25, 26, 27, 28, 29, 30]
#[test]
fn workhours_late_period_2_1() {
    let startdate_ref = Date::from_ymd_opt(2024, 4, 22).unwrap();
    for day in 22..=28 {
        let (startdate, _) =
            period_boundaries(&Date::from_ymd_opt(2024, 4, day).unwrap()).unwrap();
        assert_eq!(startdate, startdate_ref);
    }
}

//29-30 apr 2024 -> +2 (mon-tue) [22, 23, 24, 25, 26, 27, 28, 29, 30]
#[test]
fn workhours_late_period_2_2() {
    let startdate_ref = Date::from_ymd_opt(2024, 4, 22).unwrap();
    for day in 29..=30 {
        let (startdate, _) =
            period_boundaries(&Date::from_ymd_opt(2024, 4, day).unwrap()).unwrap();
        assert_eq!(startdate, startdate_ref);
    }
}

//23-29 sep 2024 -> +1 (mon-mon) [23, 24, 25, 26, 27, 28, 29, 30]
#[test]
fn workhours_late_period_1_1() {
    let startdate_ref = Date::from_ymd_opt(2024, 9, 23).unwrap();
    for day in 23..=29 {
        let (startdate, _) =
            period_boundaries(&Date::from_ymd_opt(2024, 9, day).unwrap()).unwrap();
        assert_eq!(startdate, startdate_ref);
    }
}

//30 sep 2024    -> +1 (mon-mon) [23, 24, 25, 26, 27, 28, 29, 30]
#[test]
fn workhours_late_period_1_2() {
    let startdate_ref = Date::from_ymd_opt(2024, 9, 23).unwrap();
    let (startdate, _) =
        period_boundaries(&Date::from_ymd_opt(2024, 9, 30).unwrap()).unwrap();
    assert_eq!(startdate, startdate_ref);
}

//25-31 mar 2024 -> +0 (mon-sun) [25, 26, 27, 28, 29, 30, 31]
#[test]
fn workhours_late_period_0() {
    let startdate_ref = Date::from_ymd_opt(2024, 3, 25).unwrap();
    for day in 25..=31 {
        let (startdate, _) =
            period_boundaries(&Date::from_ymd_opt(2024, 3, day).unwrap()).unwrap();
        assert_eq!(startdate, startdate_ref);
    }
}

//26-31 aug 2024 -> -1 (mon-sat) [26, 27, 28, 29, 30, 31]
#[test]
fn workhours_late_period_neg1() {
    let startdate_ref = Date::from_ymd_opt(2024, 8, 26).unwrap();
    for day in 26..=31 {
        let (startdate, _) =
            period_boundaries(&Date::from_ymd_opt(2024, 8, day).unwrap()).unwrap();
        assert_eq!(startdate, startdate_ref);
    }
}

//27-31 may 2024 -> -2 (mon-fri) [27, 28, 29, 30, 31]
#[test]
fn workhours_late_period_neg2() {
    let startdate_ref = Date::from_ymd_opt(2024, 5, 27).unwrap();
    for day in 27..=31 {
        let (startdate, _) =
            period_boundaries(&Date::from_ymd_opt(2024, 5, day).unwrap()).unwrap();
        assert_eq!(startdate, startdate_ref);
    }
}

//28-31 oct 2024 -> -3 (mon-thu) [28, 29, 30, 31]
#[test]
fn workhours_late_period_neg3() {
    let startdate_ref = Date::from_ymd_opt(2024, 10, 28).unwrap();
    for day in 28..=31 {
        let (startdate, _) =
            period_boundaries(&Date::from_ymd_opt(2024, 10, day).unwrap()).unwrap();
        assert_eq!(startdate, startdate_ref);
    }
}

//29-31 jul 2024 -> -4 (mon-wed) [20, 30, 31]
#[test]
fn workhours_late_period_neg4() {
    let startdate_ref = Date::from_ymd_opt(2024, 7, 29).unwrap();
    for day in 29..=31 {
        let (startdate, _) =
            period_boundaries(&Date::from_ymd_opt(2024, 7, day).unwrap()).unwrap();
        assert_eq!(startdate, startdate_ref);
    }
}
