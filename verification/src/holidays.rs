//! The public holidays of a year: the fixed ones, those that follow Easter,
//! Midsummer Eve and the national day.

use crate::calendar::{
    date_of, day_number, days_before_month, days_before_year, first_day_number, last_day_number,
    lemma_date_of, lemma_day_number_bounds, lemma_earlier_in_month, lemma_room_before,
    lemma_within_year, lemma_year_starts_ordered, weekday_of, Date, MAX_YEAR, MIN_YEAR,
};
use crate::naive_date::{easter_sunday, gregorian_easter, shift_days, weekday_from_monday};
use vstd::prelude::*;

verus! {

/// The first year for which Easter, and so the holidays, can be computed.
pub const FIRST_EASTER_YEAR: i32 = 1583;

/// The last year for which Easter, and so the holidays, can be computed.
pub const LAST_EASTER_YEAR: i32 = 9999;

/// Whether the holidays of `year` can be computed.
pub open spec fn has_holidays(year: int) -> bool {
    FIRST_EASTER_YEAR <= year <= LAST_EASTER_YEAR
}

/// The day number of Easter Sunday of `year`.
pub open spec fn easter_day_number(year: int) -> int {
    match gregorian_easter(year) {
        Some((y, m, d)) => day_number(y, m, d),
        None => 0,
    }
}

/// The day of June on which Midsummer Eve falls: the last Friday on or
/// before 30 June.
pub open spec fn midsummer_day(year: int) -> int {
    30 - (weekday_of(day_number(year, 6, 30)) + 3) % 7
}

/// The day of June on which the national day is observed: the 6th, or the
/// Friday before it where the 6th falls on a Saturday or a Sunday.
pub open spec fn national_day_in_june(year: int) -> int {
    let weekday = weekday_of(day_number(year, 6, 6));
    if weekday == 5 {
        5
    } else if weekday == 6 {
        4
    } else {
        6
    }
}

/// Midsummer Eve is a Friday of the last seven days of June, and no Friday
/// lies between it and the end of June.
pub proof fn lemma_midsummer_is_last_friday(year: int)
    ensures
        24 <= midsummer_day(year) <= 30,
        weekday_of(day_number(year, 6, midsummer_day(year))) == 4,
        forall|day: int|
            midsummer_day(year) < day <= 30 ==> weekday_of(day_number(year, 6, day)) != 4,
{
}

/// The national day is observed on 4, 5 or 6 June, and never on a Saturday or
/// a Sunday.
pub proof fn lemma_national_day_is_a_weekday(year: int)
    ensures
        4 <= national_day_in_june(year) <= 6,
        weekday_of(day_number(year, 6, national_day_in_june(year))) < 5,
{
}

/// The twelve holidays of `year`.
pub open spec fn year_holidays(year: int) -> Seq<Date> {
    let y = year as i32;
    let easter = easter_day_number(year);
    seq![
        Date { year: y, month: 1, day: 1 },
        Date { year: y, month: 1, day: 6 },
        Date { year: y, month: 5, day: 1 },
        Date { year: y, month: 12, day: 24 },
        Date { year: y, month: 12, day: 25 },
        Date { year: y, month: 12, day: 26 },
        Date { year: y, month: 12, day: 31 },
        easter_days_of(easter)[0],
        easter_days_of(easter)[1],
        easter_days_of(easter)[2],
        Date { year: y, month: 6, day: midsummer_day(year) as u32 },
        Date { year: y, month: 6, day: national_day_in_june(year) as u32 },
    ]
}

/// The holidays of the years from `start_year` to `end_year`, year by year.
pub open spec fn holidays_of_years(start_year: int, end_year: int) -> Seq<Date>
    decreases end_year - start_year + 1,
{
    if end_year < start_year {
        Seq::empty()
    } else {
        holidays_of_years(start_year, end_year - 1) + year_holidays(end_year)
    }
}

/// What is reported for a year whose dates cannot be built.
pub open spec fn bad_date_message() -> Seq<char> {
    "Failed to initiate fixed date"@
}

/// What is reported for a year whose Easter cannot be computed.
pub open spec fn bad_easter_message() -> Seq<char> {
    "Easter can only be computed for the years 1583 to 9999"@
}

/// What is reported for a year whose 6 June cannot be built.
pub open spec fn bad_national_day_message() -> Seq<char> {
    "Failed to calculate the national day"@
}

/// What is reported for a year whose 30 June cannot be built.
pub open spec fn bad_midsummer_message() -> Seq<char> {
    "Failed when initiating midsummer date calculation"@
}

/// What is reported for a year without holidays.
pub open spec fn year_failure(year: int) -> Seq<char> {
    if year < MIN_YEAR || year > MAX_YEAR {
        bad_date_message()
    } else {
        bad_easter_message()
    }
}

/// The first year from `start_year` on whose holidays cannot be computed,
/// given that there is one up to `end_year`.
pub open spec fn first_year_without_holidays(start_year: int) -> int {
    if has_holidays(start_year) {
        LAST_EASTER_YEAR + 1
    } else {
        start_year
    }
}

/// A date of a year with holidays has a hundred supported days on both sides.
pub proof fn lemma_room_around(d: Date)
    requires
        d.wf(),
        has_holidays(d.year as int),
    ensures
        first_day_number() + 100 <= d@ <= last_day_number() - 100,
{
    reveal(days_before_year);
    reveal(days_before_month);
    lemma_within_year(d);
    lemma_year_starts_ordered(MIN_YEAR as int, d.year as int);
    lemma_year_starts_ordered(d.year + 1, MAX_YEAR as int);
}

/// What is reported where Good Friday lies before the first supported day.
pub open spec fn bad_good_friday_message() -> Seq<char> {
    "Failed to calculate Good Friday"@
}

/// What is reported where Easter Monday lies after the last supported day.
pub open spec fn bad_easter_monday_message() -> Seq<char> {
    "Failed to calculate Easter Monday"@
}

/// What is reported where Ascension Day lies after the last supported day.
pub open spec fn bad_ascension_message() -> Seq<char> {
    "Failed to calculate Ascension Day"@
}

/// The holidays that go by the Easter Sunday with day number `sunday`: Good
/// Friday two days before it, Easter Monday on the day after it, and
/// Ascension Day forty days after it.
pub open spec fn easter_days_of(sunday: int) -> Seq<Date> {
    seq![date_of(sunday - 2), date_of(sunday + 1), date_of(sunday + 40)]
}

/// Good Friday, Easter Monday and Ascension Day for the Easter Sunday `sunday`.
pub fn easter_days(sunday: &Date) -> (r: Result<[Date; 3], String>)
    requires
        sunday.wf(),
    ensures
        first_day_number() <= sunday@ - 2 && sunday@ + 40 <= last_day_number() ==> (r matches Ok(
            days,
        ) && days@ == easter_days_of(sunday@) && days[0].wf() && days[1].wf() && days[2].wf()
            && days[0]@ == sunday@ - 2 && days[1]@ == sunday@ + 1 && days[2]@ == sunday@ + 40),
        sunday@ - 2 < first_day_number() ==> (r matches Err(e) && e@
            == bad_good_friday_message()),
        first_day_number() <= sunday@ - 2 && last_day_number() < sunday@ + 1 ==> (r matches Err(e)
            && e@ == bad_easter_monday_message()),
        first_day_number() <= sunday@ - 2 && sunday@ + 1 <= last_day_number() < sunday@ + 40 ==> (
        r matches Err(e) && e@ == bad_ascension_message()),
{
    proof {
        lemma_day_number_bounds(*sunday);
    }
    let good_friday = match shift_days(sunday, -2) {
        Some(d) => d,
        None => { return Err("Failed to calculate Good Friday".to_owned()); },
    };
    proof {
        lemma_day_number_bounds(good_friday);
    }
    let easter_monday = match shift_days(sunday, 1) {
        Some(d) => d,
        None => { return Err("Failed to calculate Easter Monday".to_owned()); },
    };
    proof {
        lemma_day_number_bounds(easter_monday);
    }
    let ascension = match shift_days(sunday, 40) {
        Some(d) => d,
        None => { return Err("Failed to calculate Ascension Day".to_owned()); },
    };
    proof {
        lemma_day_number_bounds(ascension);
        lemma_date_of(good_friday);
        lemma_date_of(easter_monday);
        lemma_date_of(ascension);
    }
    let days = [good_friday, easter_monday, ascension];
    assert(days@ =~= easter_days_of(sunday@));
    Ok(days)
}

/// Good Friday, Easter Monday and Ascension Day of `year`.
pub fn easter(year: i32) -> (r: Result<[Date; 3], String>)
    ensures
        has_holidays(year as int) ==> (r matches Ok(days) && days@ == easter_days_of(
            easter_day_number(year as int),
        ) && days[0].wf() && days[1].wf() && days[2].wf()),
        !has_holidays(year as int) ==> (r matches Err(e) && e@ == bad_easter_message()),
{
    let sunday = match easter_sunday(year) {
        Some(d) => d,
        None => {
            return Err("Easter can only be computed for the years 1583 to 9999".to_owned());
        },
    };
    proof {
        lemma_room_around(sunday);
    }
    easter_days(&sunday)
}

/// The day on which the national day of `year` is observed: 6 June, or the
/// Friday before it where that is a Saturday or a Sunday.
pub fn national_day(year: i32) -> (r: Result<Date, String>)
    ensures
        MIN_YEAR <= year <= MAX_YEAR ==> r == Ok::<Date, String>(
            Date { year, month: 6, day: national_day_in_june(year as int) as u32 },
        ),
        !(MIN_YEAR <= year <= MAX_YEAR) ==> (r matches Err(e) && e@ == bad_national_day_message()),
{
    let sixth = match Date::from_ymd_opt(year, 6, 6) {
        Some(d) => d,
        None => { return Err("Failed to calculate the national day".to_owned()); },
    };
    let weekday: u32 = weekday_from_monday(&sixth);
    let back: i32 = if weekday == 5 {
        1
    } else if weekday == 6 {
        2
    } else {
        return Ok(sixth);
    };
    proof {
        lemma_room_before(sixth, back as int);
    }
    match shift_days(&sixth, -back) {
        Some(d) => {
            proof {
                lemma_earlier_in_month(sixth, back as int, d);
            }
            Ok(d)
        },
        None => Err("Failed to calculate the national day".to_owned()),
    }
}

/// Midsummer Eve of `year`: the last Friday on or before 30 June.
pub fn midsummer(year: i32) -> (r: Result<Date, String>)
    ensures
        MIN_YEAR <= year <= MAX_YEAR ==> r == Ok::<Date, String>(
            Date { year, month: 6, day: midsummer_day(year as int) as u32 },
        ),
        !(MIN_YEAR <= year <= MAX_YEAR) ==> (r matches Err(e) && e@ == bad_midsummer_message()),
{
    let mut date = match Date::from_ymd_opt(year, 6, 30) {
        Some(d) => d,
        None => { return Err("Failed when initiating midsummer date calculation".to_owned()); },
    };
    let ghost last = date@;
    while weekday_from_monday(&date) != 4
        invariant
            date.wf(),
            date.year == year,
            date.month == 6,
            last == day_number(year as int, 6, 30),
            date@ == last - (30 - date.day),
            0 <= 30 - date.day <= (weekday_of(last) + 3) % 7,
        decreases date.day,
    {
        proof {
            lemma_room_before(date, 1);
        }
        let earlier = match shift_days(&date, -1) {
            Some(d) => d,
            None => { return Err("Failed when stepping dates towards midsummer".to_owned()); },
        };
        proof {
            lemma_earlier_in_month(date, 1, earlier);
        }
        date = earlier;
    }
    Ok(date)
}

/// The twelve holidays of `year`.
pub fn get_year_holidays(year: i32) -> (r: Result<[Date; 12], String>)
    ensures
        has_holidays(year as int) ==> (r matches Ok(days) && days@ == year_holidays(year as int)),
        !has_holidays(year as int) ==> (r matches Err(e) && e@ == year_failure(year as int)),
{
    if year < MIN_YEAR || year > MAX_YEAR {
        return Err("Failed to initiate fixed date".to_owned());
    }
    let fixed_dates = [
        Date { year, month: 1, day: 1 },
        Date { year, month: 1, day: 6 },
        Date { year, month: 5, day: 1 },
        Date { year, month: 12, day: 24 },
        Date { year, month: 12, day: 25 },
        Date { year, month: 12, day: 26 },
        Date { year, month: 12, day: 31 },
    ];
    let easter_dates = match easter(year) {
        Ok(days) => days,
        Err(e) => { return Err(e); },
    };
    let midsummer_eve = match midsummer(year) {
        Ok(d) => d,
        Err(e) => { return Err(e); },
    };
    let national = match national_day(year) {
        Ok(d) => d,
        Err(e) => { return Err(e); },
    };
    let days = [
        fixed_dates[0],
        fixed_dates[1],
        fixed_dates[2],
        fixed_dates[3],
        fixed_dates[4],
        fixed_dates[5],
        fixed_dates[6],
        easter_dates[0],
        easter_dates[1],
        easter_dates[2],
        midsummer_eve,
        national,
    ];
    assert(days@ =~= year_holidays(year as int));
    Ok(days)
}

/// The holidays of every year from `start_year` to `end_year`, in the order
/// of the years; none where `start_year` is the later one.
pub fn for_years(start_year: i32, end_year: i32) -> (r: Result<Vec<Date>, String>)
    ensures
        start_year > end_year || (has_holidays(start_year as int) && has_holidays(end_year as int))
            ==> (r matches Ok(days) && days@ == holidays_of_years(
            start_year as int,
            end_year as int,
        )),
        start_year <= end_year && !(has_holidays(start_year as int) && has_holidays(
            end_year as int,
        )) ==> (r matches Err(e) && e@ == year_failure(
            first_year_without_holidays(start_year as int),
        )),
{
    let mut holidays: Vec<Date> = Vec::new();
    if start_year > end_year {
        return Ok(holidays);
    }
    let mut year: i32 = start_year;
    loop
        invariant
            start_year <= year <= end_year,
            year > start_year ==> has_holidays(start_year as int),
            year <= first_year_without_holidays(start_year as int),
            holidays@ == holidays_of_years(start_year as int, year - 1),
        decreases end_year - year,
    {
        let of_year = match get_year_holidays(year) {
            Ok(days) => days,
            Err(e) => { return Err(e); },
        };
        let mut i: usize = 0;
        while i < 12
            invariant
                0 <= i <= 12,
                of_year@ == year_holidays(year as int),
                holidays@ == holidays_of_years(start_year as int, year - 1) + of_year@.take(
                    i as int,
                ),
            decreases 12 - i,
        {
            holidays.push(of_year[i]);
            proof {
                assert(of_year@.take(i + 1) =~= of_year@.take(i as int).push(
                    of_year@[i as int],
                ));
            }
            i += 1;
        }
        proof {
            assert(of_year@.take(12) =~= of_year@);
        }
        if year == end_year {
            return Ok(holidays);
        }
        year += 1;
    }
}

} // verus!
