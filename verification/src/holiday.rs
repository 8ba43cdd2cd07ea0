//! Holiday index: which days of which months are holidays.
//!
//! The index keys a 32-bit mask by `(year, month)`; bit `day - 1` set means
//! that day is a holiday.  It is built once from the lines of a holiday
//! file, in which the text before the first comma of a line names a date as
//! `year/month/day`; lines without a comma or without a valid date are
//! skipped.

use crate::calendar::{days_in_month, spec_days_in_month};
use crate::months_parser::{
    find_char, parse_number, spec_digits_val, spec_first_index, spec_number_ok, spec_split,
    split_char,
};
use std::collections::HashMap;
use vstd::prelude::*;

verus! {

broadcast use vstd::std_specs::hash::group_hash_axioms;

/// In-memory set of holiday dates, with masks keyed by year and month.
pub struct HolidayInfo {
    info: HashMap<u64, u32>,
}

impl View for HolidayInfo {
    type V = Set<(int, int, int)>;

    /// The set of `(year, month, day)` triples the index holds.
    closed spec fn view(&self) -> Set<(int, int, int)> {
        Set::new(
            |t: (int, int, int)|
                {
                    &&& 1 <= t.0 <= 9999
                    &&& 1 <= t.1 <= 12
                    &&& 1 <= t.2 <= 31
                    &&& self.info@.contains_key((t.0 * 100 + t.1) as u64)
                    &&& self.info@[(t.0 * 100 + t.1) as u64] & (1u32 << ((t.2 - 1) as u32)) != 0
                },
        )
    }
}

proof fn lemma_or_bit(mask: u32, a: u32, b: u32)
    requires
        a < 32,
        b < 32,
    ensures
        ((mask | (1u32 << a)) & (1u32 << b) != 0) == ((mask & (1u32 << b) != 0) || a == b),
        0u32 & (1u32 << b) == 0,
{
    assert(((mask | (1u32 << a)) & (1u32 << b) != 0) == ((mask & (1u32 << b) != 0) || a == b))
        by (bit_vector)
        requires
            a < 32,
            b < 32,
    ;
    assert(0u32 & (1u32 << b) == 0) by (bit_vector)
        requires
            b < 32,
    ;
}

impl HolidayInfo {
    /// An empty index: no date is a holiday.
    pub fn new() -> (r: HolidayInfo)
        ensures
            r@ == Set::<(int, int, int)>::empty(),
    {
        let r = HolidayInfo { info: HashMap::new() };
        proof {
            assert(r@ =~= Set::<(int, int, int)>::empty());
        }
        r
    }

    /// Whether the date is in the index.  Any year or month is allowed; a
    /// year and month never recorded are simply not holidays.
    pub fn is_holiday(&self, year: i32, month: u32, day: u32) -> (r: bool)
        requires
            1 <= day <= 31,
        ensures
            r == self@.contains((year as int, month as int, day as int)),
    {
        if year < 1 || year > 9999 || month < 1 || month > 12 {
            return false;
        }
        let k: u64 = (year as u64) * 100 + (month as u64);
        let mask: u32 = match self.info.get(&k) {
            Some(v) => *v,
            None => 0,
        };
        proof {
            lemma_or_bit(mask, (day - 1) as u32, (day - 1) as u32);
        }
        mask & (1u32 << (day - 1)) != 0
    }

    /// Records one date.
    pub fn add(&mut self, year: i32, month: u32, day: u32)
        requires
            1 <= year <= 9999,
            1 <= month <= 12,
            1 <= day <= 31,
        ensures
            final(self)@ == old(self)@.insert((year as int, month as int, day as int)),
    {
        let k: u64 = (year as u64) * 100 + (month as u64);
        let cur: u32 = match self.info.get(&k) {
            Some(v) => *v,
            None => 0,
        };
        let ghost old_self = *self;
        self.info.insert(k, cur | (1u32 << (day - 1)));
        proof {
            let t0 = (year as int, month as int, day as int);
            assert forall|t: (int, int, int)| self@.contains(t) == old_self@.insert(t0).contains(
                t,
            ) by {
                if 1 <= t.0 <= 9999 && 1 <= t.1 <= 12 && 1 <= t.2 <= 31 {
                    let kt = (t.0 * 100 + t.1) as u64;
                    lemma_or_bit(cur, (day - 1) as u32, (t.2 - 1) as u32);
                    if kt == k {
                        assert(t.0 * 100 + t.1 == year * 100 + month);
                        assert(t.0 == year && t.1 == month);
                    }
                }
            }
            assert(self@ =~= old_self@.insert(t0));
        }
    }
}

/// Recording the same date twice changes nothing beyond recording it once:
/// the index holds a set of dates.
pub proof fn lemma_add_idempotent(dates: Set<(int, int, int)>, t: (int, int, int))
    ensures
        dates.insert(t).insert(t) == dates.insert(t),
{
    assert(dates.insert(t).insert(t) =~= dates.insert(t));
}

// ---------------------------------------------------------------------------
// Holiday file text
// ---------------------------------------------------------------------------
/// A line without its trailing carriage return, if it carries one.
pub open spec fn spec_strip_cr(line: Seq<char>) -> Seq<char> {
    if line.len() > 0 && line.last() == '\r' {
        line.drop_last()
    } else {
        line
    }
}

/// The lines of a text: split on newlines, a final newline closing the last
/// line rather than opening an empty one, carriage returns stripped.
pub open spec fn spec_lines(s: Seq<char>) -> Seq<Seq<char>> {
    if s.len() == 0 {
        Seq::empty()
    } else {
        let parts = spec_split(s, '\n');
        let closed_parts = if s.last() == '\n' {
            parts.drop_last()
        } else {
            parts
        };
        closed_parts.map_values(|l: Seq<char>| spec_strip_cr(l))
    }
}

/// The date a field names, as `year/month/day` with a real calendar date:
/// year `1..=9999`, month `1..=12`, day within the month.
pub open spec fn spec_parse_date(f: Seq<char>) -> Option<(int, int, int)> {
    let parts = spec_split(f, '/');
    if parts.len() != 3 || !spec_number_ok(parts[0]) || !spec_number_ok(parts[1])
        || !spec_number_ok(parts[2]) {
        None
    } else {
        let y = spec_digits_val(parts[0]);
        let m = spec_digits_val(parts[1]);
        let d = spec_digits_val(parts[2]);
        if 1 <= y <= 9999 && 1 <= m <= 12 && 1 <= d <= spec_days_in_month(y, m) {
            Some((y, m, d))
        } else {
            None
        }
    }
}

/// The date of a holiday-file line: the text before the first comma, parsed
/// as a date.  A line without a comma holds no date.
pub open spec fn spec_date_of_line(line: Seq<char>) -> Option<(int, int, int)> {
    let ci = spec_first_index(line, ',');
    if ci >= line.len() {
        None
    } else {
        spec_parse_date(line.subrange(0, ci))
    }
}

/// The set of dates the lines of a holiday text name.
pub open spec fn spec_holidays_of(s: Seq<char>) -> Set<(int, int, int)> {
    Set::new(
        |t: (int, int, int)|
            exists|j: int|
                0 <= j < spec_lines(s).len() && spec_date_of_line(#[trigger] spec_lines(s)[j])
                    == Some(t),
    )
}

/// Splits a text into its lines, as `spec_lines` gives them.
fn lines_of(s: &str) -> (r: Vec<String>)
    ensures
        r.deep_view() == spec_lines(s@),
{
    let len = s.unicode_len();
    let mut parts = split_char(s, '\n');
    if len == 0 {
        let empty: Vec<String> = Vec::new();
        proof {
            assert(empty.deep_view() =~= spec_lines(s@));
        }
        return empty;
    }
    let ghost gparts = spec_split(s@, '\n');
    if s.get_char(len - 1) == '\n' {
        let ghost pre = parts.deep_view();
        let _ = parts.pop();
        proof {
            assert(parts.deep_view() =~= pre.drop_last());
        }
    }
    let ghost closed_parts = parts.deep_view();
    let mut r: Vec<String> = Vec::new();
    let mut i: usize = 0;
    while i < parts.len()
        invariant
            i <= parts@.len(),
            parts.deep_view() == closed_parts,
            r.deep_view() == closed_parts.subrange(0, i as int).map_values(
                |l: Seq<char>| spec_strip_cr(l),
            ),
        decreases parts@.len() - i,
    {
        let ghost prev = r.deep_view();
        let line = &parts[i];
        let line_len = line.as_str().unicode_len();
        if line_len > 0 && line.as_str().get_char(line_len - 1) == '\r' {
            r.push(String::from_str(line.as_str().substring_char(0, line_len - 1)));
            proof {
                assert(line@.subrange(0, line_len - 1) =~= line@.drop_last());
            }
        } else {
            r.push(line.clone());
        }
        proof {
            assert(r.deep_view() =~= prev.push(spec_strip_cr(closed_parts[i as int])));
            assert(closed_parts.subrange(0, i + 1) =~= closed_parts.subrange(0, i as int).push(
                closed_parts[i as int],
            ));
            assert(r.deep_view() =~= closed_parts.subrange(0, i + 1).map_values(
                |l: Seq<char>| spec_strip_cr(l),
            ));
        }
        i += 1;
    }
    proof {
        assert(closed_parts.subrange(0, closed_parts.len() as int) =~= closed_parts);
        assert(r.deep_view() =~= spec_lines(s@));
    }
    r
}

/// Parses the date of one holiday-file line, if the line carries one.
pub fn parse_holiday_line(line: &str) -> (r: Option<(i32, u32, u32)>)
    ensures
        match r {
            Some(t) => {
                &&& spec_date_of_line(line@) == Some((t.0 as int, t.1 as int, t.2 as int))
                &&& 1 <= t.0 <= 9999
                &&& 1 <= t.1 <= 12
                &&& 1 <= t.2 <= 31
            },
            None => spec_date_of_line(line@) is None,
        },
{
    let len = line.unicode_len();
    let ci = find_char(line, ',');
    if ci >= len {
        return None;
    }
    let field = line.substring_char(0, ci);
    let parts = split_char(field, '/');
    if parts.len() != 3 {
        return None;
    }
    let y = match parse_number(parts[0].as_str()) {
        Some(v) => v,
        None => {
            return None;
        },
    };
    let m = match parse_number(parts[1].as_str()) {
        Some(v) => v,
        None => {
            return None;
        },
    };
    let d = match parse_number(parts[2].as_str()) {
        Some(v) => v,
        None => {
            return None;
        },
    };
    if y < 1 || y > 9999 || m < 1 || m > 12 {
        return None;
    }
    let dim = days_in_month(y as i32, m as u32);
    if d < 1 || d > dim as u64 {
        return None;
    }
    Some((y as i32, m as u32, d as u32))
}

/// Builds the holiday index from the decoded text of a holiday file: every
/// line whose leading field names a date contributes that date; the rest
/// are skipped.
pub fn build_holiday_info(text: &str) -> (r: HolidayInfo)
    ensures
        r@ == spec_holidays_of(text@),
{
    let lines = lines_of(text);
    let ghost glines = spec_lines(text@);
    let mut info = HolidayInfo::new();
    let mut i: usize = 0;
    proof {
        assert(info@ =~= prefix_holidays(glines, 0));
    }
    while i < lines.len()
        invariant
            i <= glines.len(),
            lines.deep_view() == glines,
            info@ == prefix_holidays(glines, i as int),
        decreases glines.len() - i,
    {
        let ghost prev = info@;
        match parse_holiday_line(lines[i].as_str()) {
            Some((y, m, d)) => {
                info.add(y, m, d);
                proof {
                    let t0 = (y as int, m as int, d as int);
                    assert forall|t: (int, int, int)|
                        prefix_holidays(glines, i + 1).contains(t) == prev.insert(t0).contains(
                            t,
                        ) by {
                        if prefix_holidays(glines, i + 1).contains(t) {
                            let j = choose|j: int|
                                0 <= j < i + 1 && spec_date_of_line(#[trigger] glines[j]) == Some(
                                    t,
                                );
                            if j < i {
                                assert(prev.contains(t));
                            }
                        }
                        if prev.contains(t) {
                            let j = choose|j: int|
                                0 <= j < i && spec_date_of_line(#[trigger] glines[j]) == Some(t);
                            assert(spec_date_of_line(glines[j]) == Some(t));
                            assert(prefix_holidays(glines, i + 1).contains(t));
                        }
                        if t == t0 {
                            assert(spec_date_of_line(glines[i as int]) == Some(t));
                            assert(prefix_holidays(glines, i + 1).contains(t));
                        }
                    }
                    assert(info@ =~= prefix_holidays(glines, i + 1));
                }
            },
            None => {
                proof {
                    assert forall|t: (int, int, int)|
                        prefix_holidays(glines, i + 1).contains(t) == prev.contains(t) by {
                        if prefix_holidays(glines, i + 1).contains(t) {
                            let j = choose|j: int|
                                0 <= j < i + 1 && spec_date_of_line(#[trigger] glines[j]) == Some(
                                    t,
                                );
                            assert(j < i);
                            assert(prev.contains(t));
                        }
                        if prev.contains(t) {
                            let j = choose|j: int|
                                0 <= j < i && spec_date_of_line(#[trigger] glines[j]) == Some(t);
                            assert(prefix_holidays(glines, i + 1).contains(t));
                        }
                    }
                    assert(info@ =~= prefix_holidays(glines, i + 1));
                }
            },
        }
        i += 1;
    }
    proof {
        assert forall|t: (int, int, int)|
            prefix_holidays(glines, glines.len() as int).contains(t) == spec_holidays_of(
                text@,
            ).contains(t) by {}
        assert(info@ =~= spec_holidays_of(text@));
    }
    info
}

/// The dates named by the first `n` lines.
pub open spec fn prefix_holidays(lines: Seq<Seq<char>>, n: int) -> Set<(int, int, int)> {
    Set::new(
        |t: (int, int, int)|
            exists|j: int| 0 <= j < n && spec_date_of_line(#[trigger] lines[j]) == Some(t),
    )
}

} // verus!
