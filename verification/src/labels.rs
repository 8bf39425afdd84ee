//! The keys under which years, months and reporting periods are shown.

use crate::calendar::Date;
use crate::naive_date::{english_month_name, month_name};
use vstd::prelude::*;

verus! {

/// The character of a decimal digit.
pub open spec fn digit_char(d: int) -> char {
    if d == 0 {
        '0'
    } else if d == 1 {
        '1'
    } else if d == 2 {
        '2'
    } else if d == 3 {
        '3'
    } else if d == 4 {
        '4'
    } else if d == 5 {
        '5'
    } else if d == 6 {
        '6'
    } else if d == 7 {
        '7'
    } else if d == 8 {
        '8'
    } else {
        '9'
    }
}

/// A number that is not negative, written in decimal digits.
pub open spec fn decimal_text(n: int) -> Seq<char>
    decreases n,
{
    if n < 10 {
        seq![digit_char(n)]
    } else {
        decimal_text(n / 10).push(digit_char(n % 10))
    }
}

/// A number written in decimal digits, with a minus sign where it is negative.
pub open spec fn signed_text(n: int) -> Seq<char> {
    if n < 0 {
        seq!['-'] + decimal_text(-n)
    } else {
        decimal_text(n)
    }
}

/// A number that is not negative, written in at least two decimal digits.
pub open spec fn two_digit_text(n: int) -> Seq<char> {
    if n < 10 {
        seq!['0', digit_char(n)]
    } else {
        decimal_text(n)
    }
}

/// The key of a reporting period: `week: ` and the week number.
pub open spec fn week_label_text(week: int) -> Seq<char> {
    "week: "@ + decimal_text(week)
}

/// The key of a month: its number in two digits, a hyphen and its English name.
pub open spec fn month_key_text(month: int) -> Seq<char> {
    two_digit_text(month) + seq!['-'] + english_month_name(month)
}

/// The text of one decimal digit.
fn digit_text(d: u32) -> (r: &'static str)
    requires
        d < 10,
    ensures
        r@ == seq![digit_char(d as int)],
{
    proof {
        reveal_strlit("0");
        reveal_strlit("1");
        reveal_strlit("2");
        reveal_strlit("3");
        reveal_strlit("4");
        reveal_strlit("5");
        reveal_strlit("6");
        reveal_strlit("7");
        reveal_strlit("8");
        reveal_strlit("9");
    }
    let r = match d {
        0 => "0",
        1 => "1",
        2 => "2",
        3 => "3",
        4 => "4",
        5 => "5",
        6 => "6",
        7 => "7",
        8 => "8",
        _ => "9",
    };
    assert(r@ =~= seq![digit_char(d as int)]);
    r
}

/// Writes `n` in decimal digits at the end of `text`.
fn append_decimal(text: &mut String, n: u32)
    ensures
        final(text)@ == old(text)@ + decimal_text(n as int),
    decreases n,
{
    if n >= 10 {
        append_decimal(text, n / 10);
    }
    text.append(digit_text(n % 10));
    assert(text@ =~= old(text)@ + decimal_text(n as int));
}

/// The key under which a reporting period with this week number is shown.
pub fn week_label(week: u32) -> (r: String)
    ensures
        r@ == week_label_text(week as int),
{
    let mut text = String::from_str("week: ");
    append_decimal(&mut text, week);
    text
}

/// The key under which a year is shown.
pub fn year_key(year: i32) -> (r: String)
    ensures
        r@ == signed_text(year as int),
{
    let mut text = String::new();
    if year < 0 {
        proof {
            reveal_strlit("-");
        }
        text.append("-");
        let size: u32 = (-(year as i64)) as u32;
        append_decimal(&mut text, size);
        assert(text@ =~= signed_text(year as int));
    } else {
        append_decimal(&mut text, year as u32);
        assert(text@ =~= signed_text(year as int));
    }
    text
}

/// The key under which the month of `date` is shown.
pub fn month_key(date: &Date) -> (r: String)
    requires
        date.wf(),
    ensures
        r@ == month_key_text(date.month as int),
{
    let month: u32 = date.month();
    let mut text = String::new();
    proof {
        reveal_strlit("0");
        reveal_strlit("-");
    }
    if month < 10 {
        text.append("0");
    }
    append_decimal(&mut text, month);
    text.append("-");
    let name = month_name(date);
    text.append(name.as_str());
    assert(text@ =~= month_key_text(date.month as int));
    text
}

} // verus!
