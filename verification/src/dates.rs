//! Calendar dates of the clock, for the names of backups.

use crate::clock::{now_unix, unix_seconds_of};
use crate::text::string_of;
use vstd::prelude::*;

verus! {

/// A date of the Gregorian calendar.
#[derive(Clone, Copy, Debug, PartialEq, Eq, Structural)]
pub struct Date {
    pub year: i64,
    pub month: u8,
    pub day: u8,
}

pub open spec fn is_leap(y: int) -> bool {
    y % 4 == 0 && (y % 100 != 0 || y % 400 == 0)
}

/// The days of month `m` of year `y`.
pub open spec fn month_len(y: int, m: int) -> int {
    if m == 2 {
        if is_leap(y) {
            29
        } else {
            28
        }
    } else if m == 4 || m == 6 || m == 9 || m == 11 {
        30
    } else {
        31
    }
}

pub open spec fn valid_date(d: Date) -> bool {
    1 <= d.month <= 12 && 1 <= d.day <= month_len(d.year as int, d.month as int)
}

/// The days from the first of March of the year 0 to that of year `y`.
pub open spec fn days_to_march(y: int) -> int {
    365 * y + y / 4 - y / 100 + y / 400
}

/// The days from the first of March to the first of the month that comes `m` months later.
pub open spec fn days_to_month(m: int) -> int {
    (153 * m + 2) / 5
}

/// The days from 1970-01-01 to a date. Years are counted from March, so that the leap day is the
/// last one.
pub open spec fn day_number(y: int, m: int, d: int) -> int {
    if m <= 2 {
        days_to_march(y - 1) + days_to_month(m + 9) + d - 1 - 719_468
    } else {
        days_to_march(y) + days_to_month(m - 3) + d - 1 - 719_468
    }
}

/// The day after a date.
pub open spec fn next_day(y: int, m: int, d: int) -> (int, int, int) {
    if d < month_len(y, m) {
        (y, m, d + 1)
    } else if m < 12 {
        (y, m + 1, 1)
    } else {
        (y + 1, 1, 1)
    }
}

/// Day numbers count the days of the calendar: 1970-01-01 is day 0, and the day after a date,
/// by the lengths of the months, has the next number.
pub proof fn day_numbers_count_days(y: int, m: int, d: int)
    requires
        1 <= m <= 12,
        1 <= d <= month_len(y, m),
    ensures
        day_number(1970, 1, 1) == 0,
        ({
            let (y2, m2, d2) = next_day(y, m, d);
            &&& 1 <= m2 <= 12
            &&& 1 <= d2 <= month_len(y2, m2)
            &&& day_number(y2, m2, d2) == day_number(y, m, d) + 1
        }),
{
    if d == month_len(y, m) {
        if m == 2 {
            lemma_year_step(y);
        } else {
            lemma_month_step(m);
        }
    }
}

proof fn lemma_year_step(y: int)
    ensures
        days_to_march(y) == days_to_march(y - 1) + 365 + if is_leap(y) {
            1int
        } else {
            0int
        },
{
    assert(y / 4 == (y - 1) / 4 + if y % 4 == 0 {
        1int
    } else {
        0int
    });
    assert(y / 100 == (y - 1) / 100 + if y % 100 == 0 {
        1int
    } else {
        0int
    });
    assert(y / 400 == (y - 1) / 400 + if y % 400 == 0 {
        1int
    } else {
        0int
    });
}

proof fn lemma_month_step(m: int)
    requires
        1 <= m <= 12,
        m != 2,
    ensures
        m == 1 ==> days_to_month(11) == days_to_month(10) + 31,
        m == 12 ==> days_to_month(10) == days_to_month(9) + 31,
        3 <= m < 12 ==> days_to_month(m - 2) == days_to_month(m - 3) + month_len(0, m),
{
}

/// The days before year `y` of a period of 400 years.
spec fn days_in(y: int) -> int {
    365 * y + y / 4 - y / 100
}

proof fn lemma_year_of(doe: int)
    requires
        0 <= doe < 146_097,
    ensures
        ({
            let y = (doe - doe / 1460 + doe / 36_524 - doe / 146_096) / 365;
            &&& 0 <= y <= 399
            &&& days_in(y) <= doe
            &&& doe - days_in(y) <= 365
            &&& doe - days_in(y) == 365 ==> is_leap(y + 1)
        }),
{
    let y = (doe - doe / 1460 + doe / 36_524 - doe / 146_096) / 365;
    let c = doe / 36_524;
    assert(c == 0 || c == 1 || c == 2 || c == 3 || c == 4);
    if c == 0 {
    } else if c == 1 {
    } else if c == 2 {
    } else if c == 3 {
    } else {
    }
}

proof fn lemma_month_of(doy: int)
    requires
        0 <= doy <= 365,
    ensures
        ({
            let m = (5 * doy + 2) / 153;
            let d = doy - days_to_month(m) + 1;
            &&& 0 <= m <= 11
            &&& 1 <= d <= 31
            &&& (m == 1 || m == 3 || m == 6 || m == 8) ==> d <= 30
            &&& m == 11 ==> d <= 29
            &&& m == 11 && doy < 365 ==> d <= 28
        }),
{
}

proof fn lemma_march(yoe: int, e: int)
    requires
        0 <= yoe <= 399,
    ensures
        days_to_march(yoe + 400 * e) == 146_097 * e + days_in(yoe),
{
    assert((yoe + 400 * e) / 4 == yoe / 4 + 100 * e);
    assert((yoe + 400 * e) / 100 == yoe / 100 + 4 * e);
    assert((yoe + 400 * e) / 400 == e);
}

proof fn lemma_leap_period(y: int, e: int)
    ensures
        is_leap(y + 400 * e) == is_leap(y),
{
    assert((y + 400 * e) % 4 == y % 4);
    assert((y + 400 * e) % 100 == y % 100);
    assert((y + 400 * e) % 400 == y % 400);
}

/// Day `doy` of the year that begins in March of year `y` is a valid date with the right number.
proof fn lemma_date(y: int, doy: int, yoe: int)
    requires
        0 <= doy <= 365,
        doy == 365 ==> is_leap(yoe + 1),
        is_leap(y + 1) == is_leap(yoe + 1),
    ensures
        ({
            let mp = (5 * doy + 2) / 153;
            let day = doy - days_to_month(mp) + 1;
            let month = if mp < 10 {
                mp + 3
            } else {
                mp - 9
            };
            let year = if month <= 2 {
                y + 1
            } else {
                y
            };
            &&& 1 <= month <= 12
            &&& 1 <= day <= month_len(year, month)
            &&& day_number(year, month, day) == days_to_march(y) + doy - 719_468
        }),
{
    lemma_month_of(doy);
}

/// The date of a day, counted from 1970-01-01. The day is one that a 64-bit count of seconds can
/// reach.
pub fn civil_from_days(days: i64) -> (r: Date)
    requires
        -110_000_000_000_000 <= days <= 110_000_000_000_000,
    ensures
        valid_date(r),
        day_number(r.year as int, r.month as int, r.day as int) == days,
{
    // Counted from a first of March that is a whole number of 400-year periods before the year 0.
    let z: u64 = (days + 719_468 + 146_097_000_000_000) as u64;
    let era: u64 = z / 146_097;
    let doe: u64 = z % 146_097;
    let yoe: u64 = (doe - doe / 1460 + doe / 36_524 - doe / 146_096) / 365;
    proof {
        lemma_year_of(doe as int);
    }
    let doy: u64 = doe - (365 * yoe + yoe / 4 - yoe / 100);
    let mp: u64 = (5 * doy + 2) / 153;
    proof {
        lemma_month_of(doy as int);
    }
    let day: u64 = doy - (153 * mp + 2) / 5 + 1;
    let month: u64 = if mp < 10 {
        mp + 3
    } else {
        mp - 9
    };
    let march_year: i64 = (yoe + era * 400) as i64 - 400_000_000_000;
    let year: i64 = if month <= 2 {
        march_year + 1
    } else {
        march_year
    };
    proof {
        let e = era as int - 1_000_000_000;
        assert(march_year == yoe + 400 * e);
        assert(days + 719_468 == 146_097 * e + doe);
        lemma_march(yoe as int, e);
        lemma_leap_period(yoe as int + 1, e);
        lemma_date(march_year as int, doy as int, yoe as int);
    }
    Date { year, month: month as u8, day: day as u8 }
}

// ---- text ---------------------------------------------------------------------------------

/// The digit that stands for `n`.
pub open spec fn digit_char(n: int) -> char {
    ((n % 10) + 48) as char
}

/// The decimal digits of `n`, at least `width` of them.
pub open spec fn padded(n: nat, width: nat) -> Seq<char>
    decreases n, width,
{
    if n < 10 && width <= 1 {
        seq![digit_char(n as int)]
    } else if n < 10 {
        padded(0, (width - 1) as nat).push(digit_char(n as int))
    } else {
        padded(n / 10, if width == 0 { 0 } else { (width - 1) as nat }).push(digit_char(n as int))
    }
}

/// A year as four digits or more; one before the year 0 as a minus and three or more.
pub open spec fn year_text(y: int) -> Seq<char> {
    if y < 0 {
        seq!['-'] + padded((-y) as nat, 3)
    } else {
        padded(y as nat, 4)
    }
}

/// A date as year, month and day.
pub open spec fn date_text(d: Date) -> Seq<char> {
    year_text(d.year as int) + seq!['-'] + padded(d.month as nat, 2) + seq!['-'] + padded(
        d.day as nat,
        2,
    )
}

fn digit_of(n: u64) -> (r: char)
    ensures
        r == digit_char(n as int),
{
    let d: u8 = (n % 10) as u8;
    (d + 48) as char
}

fn push_padded(out: &mut Vec<char>, n: u64, width: usize)
    ensures
        final(out)@ == old(out)@ + padded(n as nat, width as nat),
    decreases n, width,
{
    if n < 10 && width <= 1 {
    } else if n < 10 {
        push_padded(out, 0, width - 1);
    } else {
        push_padded(
            out,
            n / 10,
            if width == 0 {
                0
            } else {
                width - 1
            },
        );
    }
    let ghost before = out@;
    out.push(digit_of(n));
    assert(out@ =~= old(out)@ + padded(n as nat, width as nat));
}

/// A date as year, month and day, such as 2026-02-09.
pub fn format_date(d: Date) -> (r: String)
    ensures
        r@ == date_text(d),
{
    let mut out: Vec<char> = Vec::new();
    if d.year < 0 {
        out.push('-');
        let y: u64 = (-(d.year as i128)) as u64;
        push_padded(&mut out, y, 3);
    } else {
        push_padded(&mut out, d.year as u64, 4);
    }
    assert(out@ =~= year_text(d.year as int));
    out.push('-');
    push_padded(&mut out, d.month as u64, 2);
    out.push('-');
    push_padded(&mut out, d.day as u64, 2);
    assert(out@ =~= date_text(d));
    string_of(&out)
}

/// The day that a second of the clock falls on.
pub open spec fn day_of(seconds: int) -> int {
    seconds / 86_400
}

/// `s` is the text of the date that a second of the clock falls on.
pub open spec fn names_day_of(s: Seq<char>, seconds: int) -> bool {
    exists|d: Date|
        valid_date(d) && day_number(d.year as int, d.month as int, d.day as int) == day_of(seconds)
            && s == #[trigger] date_text(d)
}

/// The date that a second of the clock falls on.
pub fn date_of_seconds(seconds: i64) -> (r: Date)
    ensures
        valid_date(r),
        day_number(r.year as int, r.month as int, r.day as int) == day_of(seconds as int),
{
    let shifted: i128 = seconds as i128 + 86_400_i128 * 110_000_000_000_000_i128;
    let days: i64 = (shifted / 86_400) as i64 - 110_000_000_000_000;
    civil_from_days(days)
}

/// Today's date, by the clock, as year, month and day.
pub fn today_yyyy_mm_dd() -> (r: String)
    ensures
        exists|reading: Option<u64>| names_day_of(r@, #[trigger] unix_seconds_of(reading) as int),
{
    let seconds: i64 = now_unix();
    format_date(date_of_seconds(seconds))
}

// ---- uniqueness ---------------------------------------------------------------------------

proof fn lemma_march_grows(a: int, b: int)
    requires
        a < b,
    ensures
        days_to_march(a) + 365 <= days_to_march(b),
    decreases b - a,
{
    if a + 1 < b {
        lemma_march_grows(a, b - 1);
    }
    let c = b - 1;
    assert(b / 4 - b / 100 + b / 400 >= c / 4 - c / 100 + c / 400);
}

/// A date as its March year and the day of that year.
proof fn lemma_in_year(y: int, m: int, d: int)
    requires
        1 <= m <= 12,
        1 <= d <= month_len(y, m),
    ensures
        ({
            let my = if m <= 2 {
                y - 1
            } else {
                y
            };
            let mm = if m <= 2 {
                m + 9
            } else {
                m - 3
            };
            let doy = days_to_month(mm) + d - 1;
            &&& day_number(y, m, d) == days_to_march(my) + doy - 719_468
            &&& 0 <= doy
            &&& days_to_march(my) + doy < days_to_march(my + 1)
            &&& (5 * doy + 2) / 153 == mm
        }),
{
    let my = if m <= 2 {
        y - 1
    } else {
        y
    };
    assert(my / 4 + 1 >= (my + 1) / 4 >= my / 4);
}

/// A day has one date: two valid dates with the same day number are the same.
pub proof fn a_day_has_one_date(a: Date, b: Date)
    requires
        valid_date(a),
        valid_date(b),
        day_number(a.year as int, a.month as int, a.day as int) == day_number(
            b.year as int,
            b.month as int,
            b.day as int,
        ),
    ensures
        a == b,
{
    let ya = if a.month <= 2 {
        a.year - 1
    } else {
        a.year as int
    };
    let yb = if b.month <= 2 {
        b.year - 1
    } else {
        b.year as int
    };
    lemma_in_year(a.year as int, a.month as int, a.day as int);
    lemma_in_year(b.year as int, b.month as int, b.day as int);
    if ya < yb {
        if ya + 1 < yb {
            lemma_march_grows(ya + 1, yb);
        }
    }
    if yb < ya {
        if yb + 1 < ya {
            lemma_march_grows(yb + 1, ya);
        }
    }
}

/// A year has 366 days where it can be divided by four and not by a hundred, or by four hundred,
/// and 365 otherwise.
pub proof fn leap_years_have_a_day_more(y: int)
    ensures
        y % 400 == 0 || (y % 4 == 0 && y % 100 != 0) ==> day_number(y + 1, 1, 1) - day_number(y, 1, 1)
            == 366,
        !(y % 400 == 0 || (y % 4 == 0 && y % 100 != 0)) ==> day_number(y + 1, 1, 1) - day_number(
            y,
            1,
            1,
        ) == 365,
{
    lemma_year_step(y - 1);
}

/// The parts of a date are written with hyphens between them, the month and the day in two digits.
pub proof fn dates_are_written_with_hyphens(d: Date)
    requires
        1 <= d.month <= 12,
        1 <= d.day <= 31,
    ensures
        date_text(d) == year_text(d.year as int) + "-"@ + padded(d.month as nat, 2) + "-"@ + padded(
            d.day as nat,
            2,
        ),
        padded(d.month as nat, 2).len() == 2,
        padded(d.month as nat, 2)[0] as int - 48 == d.month / 10,
        padded(d.month as nat, 2)[1] as int - 48 == d.month % 10,
        padded(d.day as nat, 2).len() == 2,
        padded(d.day as nat, 2)[0] as int - 48 == d.day / 10,
        padded(d.day as nat, 2)[1] as int - 48 == d.day % 10,
{
    reveal_strlit("-");
    assert(seq!['-'] =~= "-"@);
    reveal_with_fuel(padded, 4);
}

} // verus!
