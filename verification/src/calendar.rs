//! Proleptic Gregorian calendar arithmetic and the 42-cell day grid.
//!
//! A month is laid out on a fixed 6x7 grid of cells.  A cell holds `0`
//! (padding) or a day number; the days `1..=last` run contiguously, starting
//! at the index equal to the weekday of the first of the month (Sunday = 0).

use vstd::prelude::*;

verus! {

/// A year is a leap year iff divisible by 4 and not by 100, unless by 400.
pub open spec fn spec_is_leap_year(y: int) -> bool {
    y % 4 == 0 && (y % 100 != 0 || y % 400 == 0)
}

/// Number of days of month `m` of year `y`.
pub open spec fn spec_days_in_month(y: int, m: int) -> int {
    if m == 2 {
        if spec_is_leap_year(y) {
            29
        } else {
            28
        }
    } else if m == 4 || m == 6 || m == 9 || m == 11 {
        30
    } else {
        31
    }
}

/// Days of year `y` that pass before the first of month `m`.
pub open spec fn spec_days_before_month(y: int, m: int) -> int
    decreases m,
{
    if m <= 1 {
        0
    } else {
        spec_days_before_month(y, m - 1) + spec_days_in_month(y, m - 1)
    }
}

/// Days that pass before January first of year `y` counting from the first
/// of January of year 1 (proleptic Gregorian).
pub open spec fn spec_days_before_year(y: int) -> int {
    (y - 1) * 365 + (y - 1) / 4 - (y - 1) / 100 + (y - 1) / 400
}

/// Zero-based index of the date among all days from January first of year 1.
pub open spec fn spec_day_index(y: int, m: int, d: int) -> int {
    spec_days_before_year(y) + spec_days_before_month(y, m) + (d - 1)
}

/// Weekday of a date, as an index with Sunday = 0.  January first of year 1
/// is a Monday in the proleptic Gregorian calendar, hence the offset of 1.
pub open spec fn spec_weekday(y: int, m: int, d: int) -> int {
    (spec_day_index(y, m, d) + 1) % 7
}

pub fn is_leap_year(year: i32) -> (r: bool)
    ensures
        r == spec_is_leap_year(year as int),
{
    year % 4 == 0 && (year % 100 != 0 || year % 400 == 0)
}

/// Number of days of the given month, by standard Gregorian rules.
pub fn days_in_month(year: i32, month: u32) -> (r: u32)
    requires
        1 <= month <= 12,
    ensures
        r == spec_days_in_month(year as int, month as int),
        28 <= r <= 31,
{
    if month == 2 {
        if is_leap_year(year) {
            29
        } else {
            28
        }
    } else if month == 4 || month == 6 || month == 9 || month == 11 {
        30
    } else {
        31
    }
}

/// Cumulative days before month `m` in a common (non-leap) year.
pub open spec fn spec_common_days_before_month(m: int) -> int {
    if m <= 1 {
        0
    } else if m == 2 {
        31
    } else if m == 3 {
        59
    } else if m == 4 {
        90
    } else if m == 5 {
        120
    } else if m == 6 {
        151
    } else if m == 7 {
        181
    } else if m == 8 {
        212
    } else if m == 9 {
        243
    } else if m == 10 {
        273
    } else if m == 11 {
        304
    } else {
        334
    }
}

proof fn lemma_days_before_month_table(y: int, m: int)
    requires
        1 <= m <= 12,
    ensures
        spec_days_before_month(y, m) == spec_common_days_before_month(m) + (if m > 2
            && spec_is_leap_year(y) {
            1int
        } else {
            0int
        }),
    decreases m,
{
    if m > 1 {
        lemma_days_before_month_table(y, m - 1);
    }
}

fn days_before_month(year: i32, month: u32) -> (r: u32)
    requires
        1 <= month <= 12,
    ensures
        r == spec_days_before_month(year as int, month as int),
        r <= 335,
{
    let base: u32 = match month {
        1 => 0,
        2 => 31,
        3 => 59,
        4 => 90,
        5 => 120,
        6 => 151,
        7 => 181,
        8 => 212,
        9 => 243,
        10 => 273,
        11 => 304,
        _ => 334,
    };
    proof {
        lemma_days_before_month_table(year as int, month as int);
    }
    if month > 2 && is_leap_year(year) {
        base + 1
    } else {
        base
    }
}

/// Weekday of a date, Sunday = 0 through Saturday = 6.
pub fn weekday(year: i32, month: u32, day: u32) -> (r: u32)
    requires
        1 <= year <= 9999,
        1 <= month <= 12,
        1 <= day <= 31,
    ensures
        r == spec_weekday(year as int, month as int, day as int),
        r < 7,
{
    let yy: u64 = (year - 1) as u64;
    let before_year: u64 = yy * 365 + yy / 4 - yy / 100 + yy / 400;
    assert(yy / 100 <= yy / 4) by (nonlinear_arith)
        requires
            yy >= 0,
    ;
    let bm: u64 = days_before_month(year, month) as u64;
    let idx: u64 = before_year + bm + (day - 1) as u64;
    let r = ((idx + 1) % 7) as u32;
    assert(before_year == spec_days_before_year(year as int));
    assert(r == spec_weekday(year as int, month as int, day as int));
    r
}

/// The cell at index `i` of the day grid of `(y, m)`: a day number where the
/// month's days lie, `0` in the padding before and after them.
pub open spec fn spec_grid_cell(y: int, m: int, i: int) -> int {
    let first = spec_weekday(y, m, 1);
    let last = spec_days_in_month(y, m);
    if first <= i < first + last {
        i - first + 1
    } else {
        0
    }
}

/// The 42-cell day grid of a month.
pub open spec fn spec_grid(y: int, m: int) -> Seq<u32> {
    Seq::new(42, |i: int| spec_grid_cell(y, m, i) as u32)
}

/// Builds the 42-cell (six weeks of seven days) grid of a month: cell values
/// are `0` for padding, else the day of the month; day 1 stands at the index
/// given by the weekday of the first (Sunday = 0).
pub fn preformat_days(year: i32, month: u32) -> (r: Vec<u32>)
    requires
        1 <= year <= 9999,
        1 <= month <= 12,
    ensures
        r@ == spec_grid(year as int, month as int),
{
    let first = weekday(year, month, 1);
    let last = days_in_month(year, month);
    let mut days: Vec<u32> = Vec::new();
    let mut i: usize = 0;
    while i < 42
        invariant
            i <= 42,
            days@.len() == i,
            first == spec_weekday(year as int, month as int, 1),
            first < 7,
            last == spec_days_in_month(year as int, month as int),
            forall|j: int|
                0 <= j < i ==> days@[j] == spec_grid_cell(year as int, month as int, j) as u32,
        decreases 42 - i,
    {
        let cell: u32 = if (first as usize) <= i && i < first as usize + last as usize {
            (i - first as usize + 1) as u32
        } else {
            0
        };
        days.push(cell);
        i += 1;
    }
    proof {
        assert(days@ =~= spec_grid(year as int, month as int));
    }
    days
}

} // verus!
