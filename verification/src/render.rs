//! Month rendering: headers, weekday rows, day rows, style hints, and the
//! page composer that sets rendered months side by side, three to a row.

use crate::calendar::{preformat_days, spec_grid};
use crate::consts::{
    lunar_month_name, month_name_en, spec_lunar_month_name, spec_month_name_en, spec_week_name,
    week_name, Lang,
};
use crate::holiday::HolidayInfo;
use vstd::prelude::*;

verus! {

/// Character of a decimal digit.
pub open spec fn spec_digit_char(d: int) -> char {
    ((48 + d) as u8) as char
}

/// Decimal rendering of `n`, without leading zeros.
pub open spec fn spec_num_chars(n: int) -> Seq<char>
    decreases n,
{
    if n < 10 {
        seq![spec_digit_char(n)]
    } else {
        spec_num_chars(n / 10).push(spec_digit_char(n % 10))
    }
}

fn digit_str(d: u32) -> (r: &'static str)
    requires
        d < 10,
    ensures
        r@ == seq![spec_digit_char(d as int)],
{
    let r = match d {
        0 => "0",
        1 => "1",
        2 => "2",
        3 => "3",
        4 => "4",
        5 => "5",
        6 => "6",
        7 => "7",
        8 => "8",
        _ => "9",
    };
    proof {
        reveal_strlit("0");
        reveal_strlit("1");
        reveal_strlit("2");
        reveal_strlit("3");
        reveal_strlit("4");
        reveal_strlit("5");
        reveal_strlit("6");
        reveal_strlit("7");
        reveal_strlit("8");
        reveal_strlit("9");
        assert(r@ =~= seq![spec_digit_char(d as int)]);
    }
    r
}

/// Decimal rendering of a number.
pub fn num_string(n: u64) -> (r: String)
    ensures
        r@ == spec_num_chars(n as int),
    decreases n,
{
    if n < 10 {
        String::from_str(digit_str(n as u32))
    } else {
        let mut s = num_string(n / 10);
        s.append(digit_str((n % 10) as u32));
        proof {
            assert(s@ =~= spec_num_chars((n / 10) as int).push(spec_digit_char((n % 10) as int)));
        }
        s
    }
}

pub open spec fn spec_spaces(n: nat) -> Seq<char> {
    Seq::new(n, |i: int| ' ')
}

fn spaces(n: usize) -> (r: String)
    ensures
        r@ == spec_spaces(n as nat),
{
    let mut r = String::new();
    let mut i: usize = 0;
    proof {
        reveal_strlit(" ");
        assert(r@ =~= spec_spaces(0));
    }
    while i < n
        invariant
            i <= n,
            r@ == spec_spaces(i as nat),
        decreases n - i,
    {
        r.append(" ");
        proof {
            reveal_strlit(" ");
            assert(r@ =~= spec_spaces((i + 1) as nat));
        }
        i += 1;
    }
    r
}

/// `s` centered in a field of `w` characters; padding is split evenly, the
/// odd space going to the right.  A value at least `w` wide stands as it is.
pub open spec fn spec_center(s: Seq<char>, w: nat) -> Seq<char> {
    if s.len() >= w {
        s
    } else {
        let pad = w - s.len();
        spec_spaces((pad / 2) as nat) + s + spec_spaces((pad - pad / 2) as nat)
    }
}

pub fn center_in(s: &str, width: usize) -> (r: String)
    ensures
        r@ == spec_center(s@, width as nat),
{
    let len = s.unicode_len();
    if len >= width {
        return String::from_str(s);
    }
    let pad = width - len;
    let left = pad / 2;
    let mut r = spaces(left);
    r.append(s);
    let right = spaces(pad - left);
    r.append(right.as_str());
    r
}

/// Text of one grid cell: two blanks for padding, else the day number
/// right-aligned in two characters.
pub open spec fn spec_cell_text(d: int) -> Seq<char> {
    if d == 0 {
        seq![' ', ' ']
    } else if d < 10 {
        seq![' ', spec_digit_char(d)]
    } else {
        spec_num_chars(d)
    }
}

/// Renders one day cell.
pub fn day_cell_text(d: u32) -> (r: String)
    requires
        d <= 31,
    ensures
        r@ == spec_cell_text(d as int),
{
    if d == 0 {
        let r = String::from_str("  ");
        proof {
            reveal_strlit("  ");
            assert(r@ =~= seq![' ', ' ']);
        }
        r
    } else if d < 10 {
        let mut r = String::from_str(" ");
        r.append(digit_str(d));
        proof {
            reveal_strlit(" ");
            assert(r@ =~= seq![' ', spec_digit_char(d as int)]);
        }
        r
    } else {
        num_string(d as u64)
    }
}

// ---------------------------------------------------------------------------
// Day rows
// ---------------------------------------------------------------------------
/// Cells joined by single spaces.
pub open spec fn spec_cells_joined(cells: Seq<u32>) -> Seq<char>
    decreases cells.len(),
{
    if cells.len() == 0 {
        Seq::empty()
    } else if cells.len() == 1 {
        spec_cell_text(cells[0] as int)
    } else {
        spec_cells_joined(cells.drop_last()) + seq![' '] + spec_cell_text(cells.last() as int)
    }
}

/// One week row: its seven cells joined, with two trailing spaces as the
/// separator toward a month standing to the right.
pub open spec fn spec_day_row(cells: Seq<u32>) -> Seq<char> {
    spec_cells_joined(cells) + seq![' ', ' ']
}

/// The six day rows of a month.
pub open spec fn spec_day_rows(y: int, m: int) -> Seq<Seq<char>> {
    Seq::new(6, |w: int| spec_day_row(spec_grid(y, m).subrange(7 * w, 7 * w + 7)))
}

/// Renders the six week rows of a month as plain text.
pub fn format_days(year: i32, month: u32) -> (r: Vec<String>)
    requires
        1 <= year <= 9999,
        1 <= month <= 12,
    ensures
        r.deep_view() == spec_day_rows(year as int, month as int),
{
    let days = preformat_days(year, month);
    let ghost grid = spec_grid(year as int, month as int);
    let mut rows: Vec<String> = Vec::new();
    let mut w: usize = 0;
    while w < 6
        invariant
            w <= 6,
            days@ == grid,
            grid == spec_grid(year as int, month as int),
            grid.len() == 42,
            forall|i: int| 0 <= i < 42 ==> grid[i] <= 31,
            rows.deep_view() == spec_day_rows(year as int, month as int).subrange(0, w as int),
        decreases 6 - w,
    {
        let mut line = String::new();
        let mut i: usize = 0;
        proof {
            assert(line@ =~= spec_cells_joined(grid.subrange(7 * w as int, 7 * w as int)));
        }
        while i < 7
            invariant
                i <= 7,
                w < 6,
                days@ == grid,
                grid == spec_grid(year as int, month as int),
                grid.len() == 42,
                forall|j: int| 0 <= j < 42 ==> grid[j] <= 31,
                line@ == spec_cells_joined(grid.subrange(7 * w as int, 7 * w + i as int)),
            decreases 7 - i,
        {
            if i > 0 {
                line.append(" ");
                proof {
                    reveal_strlit(" ");
                }
            }
            let cell = day_cell_text(days[7 * w + i]);
            line.append(cell.as_str());
            proof {
                let part = grid.subrange(7 * w as int, 7 * w + i + 1 as int);
                assert(part.drop_last() =~= grid.subrange(7 * w as int, 7 * w + i as int));
                assert(part.last() == grid[7 * w + i as int]);
                if i == 0 {
                    assert(line@ =~= spec_cells_joined(part));
                } else {
                    assert(line@ =~= spec_cells_joined(part.drop_last()) + seq![' ']
                        + spec_cell_text(part.last() as int));
                }
            }
            i += 1;
        }
        line.append("  ");
        let ghost prev = rows.deep_view();
        let ghost expected = spec_day_rows(year as int, month as int);
        proof {
            reveal_strlit("  ");
            assert("  "@ =~= seq![' ', ' ']);
            assert(line@ =~= expected[w as int]);
        }
        rows.push(line);
        proof {
            assert(rows.deep_view() =~= prev.push(expected[w as int]));
            assert(expected.subrange(0, w + 1) =~= expected.subrange(0, w as int).push(
                expected[w as int],
            ));
        }
        w += 1;
    }
    proof {
        let expected = spec_day_rows(year as int, month as int);
        assert(expected.subrange(0, 6) =~= expected);
    }
    rows
}

// ---------------------------------------------------------------------------
// Headers and weekday row
// ---------------------------------------------------------------------------
/// Japanese header content: month number, `月`, the lunar name in
/// parentheses, and the year when one month stands alone.
pub open spec fn spec_header_jp(y: int, m: int, show_year: bool) -> Seq<char> {
    spec_center(
        spec_num_chars(m) + "月("@ + spec_lunar_month_name(m) + ")"@ + (if show_year {
            seq![' '] + spec_num_chars(y)
        } else {
            Seq::empty()
        }),
        17,
    ) + seq![' ', ' ']
}

/// English header content: the month name, and the year when one month
/// stands alone.
pub open spec fn spec_header_en(y: int, m: int, show_year: bool) -> Seq<char> {
    spec_center(
        spec_month_name_en(m) + (if show_year {
            seq![' '] + spec_num_chars(y)
        } else {
            Seq::empty()
        }),
        20,
    ) + seq![' ', ' ']
}

/// Renders the Japanese month header, centered in its 17-character field.
pub fn format_header_jp(year: i32, month: u32, show_year: bool) -> (r: String)
    requires
        1 <= year <= 9999,
        1 <= month <= 12,
    ensures
        r@ == spec_header_jp(year as int, month as int, show_year),
{
    let mut core = num_string(month as u64);
    core.append("月(");
    core.append(lunar_month_name(month));
    core.append(")");
    if show_year {
        core.append(" ");
        let ys = num_string(year as u64);
        core.append(ys.as_str());
        proof {
            reveal_strlit(" ");
        }
    }
    let mut r = center_in(core.as_str(), 17);
    r.append("  ");
    proof {
        reveal_strlit("  ");
        assert(r@ =~= spec_header_jp(year as int, month as int, show_year));
    }
    r
}

/// Renders the English month header, centered in its 20-character field.
pub fn format_header_en(year: i32, month: u32, show_year: bool) -> (r: String)
    requires
        1 <= year <= 9999,
        1 <= month <= 12,
    ensures
        r@ == spec_header_en(year as int, month as int, show_year),
{
    let mut core = String::from_str(month_name_en(month));
    if show_year {
        core.append(" ");
        let ys = num_string(year as u64);
        core.append(ys.as_str());
        proof {
            reveal_strlit(" ");
        }
    }
    let mut r = center_in(core.as_str(), 20);
    r.append("  ");
    proof {
        reveal_strlit("  ");
        assert(r@ =~= spec_header_en(year as int, month as int, show_year));
    }
    r
}

/// The first `n` weekday names joined by single spaces.
pub open spec fn spec_week_join(lang: Lang, n: int) -> Seq<char>
    decreases n,
{
    if n <= 0 {
        Seq::empty()
    } else if n == 1 {
        spec_week_name(lang, 0)
    } else {
        spec_week_join(lang, n - 1) + seq![' '] + spec_week_name(lang, n - 1)
    }
}

/// The weekday row: the seven names joined, with two trailing spaces.
pub open spec fn spec_week_row(lang: Lang) -> Seq<char> {
    spec_week_join(lang, 7) + seq![' ', ' ']
}

/// Renders the weekday row of the locale.
pub fn format_week_row(lang: Lang) -> (r: String)
    ensures
        r@ == spec_week_row(lang),
{
    let mut line = String::new();
    let mut i: u32 = 0;
    proof {
        assert(line@ =~= spec_week_join(lang, 0));
    }
    while i < 7
        invariant
            i <= 7,
            line@ == spec_week_join(lang, i as int),
        decreases 7 - i,
    {
        if i > 0 {
            line.append(" ");
            proof {
                reveal_strlit(" ");
            }
        }
        line.append(week_name(lang, i));
        proof {
            if i == 0 {
                assert(line@ =~= spec_week_join(lang, 1));
            } else {
                assert(line@ =~= spec_week_join(lang, i as int) + seq![' '] + spec_week_name(
                    lang,
                    i as int,
                ));
            }
        }
        i += 1;
    }
    line.append("  ");
    proof {
        reveal_strlit("  ");
        assert(line@ =~= spec_week_row(lang));
    }
    line
}

// ---------------------------------------------------------------------------
// One month
// ---------------------------------------------------------------------------
/// The eight lines of a rendered month: header, weekday row, six day rows.
pub open spec fn spec_month_lines(y: int, m: int, lang: Lang, show_year: bool) -> Seq<Seq<char>> {
    seq![
        if lang is Japanese {
            spec_header_jp(y, m, show_year)
        } else {
            spec_header_en(y, m, show_year)
        },
        spec_week_row(lang),
    ] + spec_day_rows(y, m)
}

/// Renders one month as plain text lines: header, weekday row, six day
/// rows.  Style is a separate annotation; see `day_style`.
pub fn format_month(year: i32, month: u32, lang: Lang, show_year: bool) -> (r: Vec<String>)
    requires
        1 <= year <= 9999,
        1 <= month <= 12,
    ensures
        r.deep_view() == spec_month_lines(year as int, month as int, lang, show_year),
        r@.len() == 8,
{
    let header = match lang {
        Lang::Japanese => format_header_jp(year, month, show_year),
        Lang::English => format_header_en(year, month, show_year),
    };
    let week_row = format_week_row(lang);
    let mut r: Vec<String> = Vec::new();
    r.push(header);
    r.push(week_row);
    let mut days = format_days(year, month);
    let ghost pre = r.deep_view();
    let ghost days_view = days.deep_view();
    r.append(&mut days);
    proof {
        assert(r.deep_view() =~= pre + days_view);
        assert(r.deep_view() =~= spec_month_lines(year as int, month as int, lang, show_year));
    }
    r
}

// ---------------------------------------------------------------------------
// Style policy
// ---------------------------------------------------------------------------
/// Style of a day cell.  Color itself is an outward concern; the policy of
/// which day gets which style is fixed here.
#[derive(Clone, Copy, Debug, PartialEq, Eq, Structural)]
pub enum DayStyle {
    Plain,
    /// Sundays (first column) and recorded holidays.
    Holiday,
    /// Saturdays (last column) that are not holidays.
    Weekend,
}

pub open spec fn spec_day_style(col: int, is_holiday: bool) -> DayStyle {
    if col == 0 || is_holiday {
        DayStyle::Holiday
    } else if col == 6 {
        DayStyle::Weekend
    } else {
        DayStyle::Plain
    }
}

/// Style of the day standing in column `col` of its week row: the first
/// column and holidays draw the holiday style, which outranks the weekend
/// style of the last column.
pub fn day_style(col: usize, year: i32, month: u32, day: u32, holiday_info: &HolidayInfo) -> (r:
    DayStyle)
    requires
        col < 7,
        1 <= day <= 31,
    ensures
        r == spec_day_style(
            col as int,
            holiday_info@.contains((year as int, month as int, day as int)),
        ),
{
    if col == 0 || holiday_info.is_holiday(year, month, day) {
        DayStyle::Holiday
    } else if col == 6 {
        DayStyle::Weekend
    } else {
        DayStyle::Plain
    }
}

/// Whether a grid day is the current day.
pub fn is_same_day(year: i32, month: u32, day: u32, t_year: i32, t_month: u32, t_day: u32) -> (r:
    bool)
    ensures
        r == (year == t_year && month == t_month && day == t_day),
{
    year == t_year && month == t_month && day == t_day
}

} // verus!
