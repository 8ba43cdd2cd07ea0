//! Month selection parser.
//!
//! A selection is a comma-separated list of segments; a segment is either a
//! single month (`"5"`) or an inclusive range (`"3-7"`).  Months run from 1
//! to 12 and the first month of a range must be strictly lower than the
//! second.  The validated segments become half-open zero-based ranges, are
//! sorted by `(start, end)`, and are flattened against a monotonically
//! advancing offset, so overlapping ranges do not re-emit months they share.

use crate::render::{num_string, spec_digit_char, spec_num_chars};
use vstd::prelude::*;
use vstd::relations::{sorted_by, total_ordering};
use vstd::seq_lib::*;

verus! {

pub type Months = Vec<u32>;

/// Error of a month selection, carrying the offending segment or values.
#[derive(Debug, PartialEq, Eq)]
pub enum MonthsError {
    /// A segment that is not a decimal number or a dash-separated pair of them.
    InvalidFormat(String),
    /// A number outside `1..=12`.
    InvalidMonth(u64),
    /// A range whose first month is not strictly lower than its second.
    RangeOrder(u64, u64),
}

// ---------------------------------------------------------------------------
// Splitting on a separator character
// ---------------------------------------------------------------------------
/// Index of the first occurrence of `sep` in `s`, or `s.len()` if absent.
pub open spec fn spec_first_index(s: Seq<char>, sep: char) -> int
    decreases s.len(),
{
    if s.len() == 0 {
        0
    } else if s[0] == sep {
        0
    } else {
        1 + spec_first_index(s.drop_first(), sep)
    }
}

pub proof fn lemma_first_index(s: Seq<char>, sep: char)
    ensures
        0 <= spec_first_index(s, sep) <= s.len(),
        spec_first_index(s, sep) < s.len() ==> s[spec_first_index(s, sep)] == sep,
        forall|j: int| 0 <= j < spec_first_index(s, sep) ==> s[j] != sep,
    decreases s.len(),
{
    if s.len() > 0 && s[0] != sep {
        lemma_first_index(s.drop_first(), sep);
        assert forall|j: int| 0 <= j < spec_first_index(s, sep) implies s[j] != sep by {
            if j > 0 {
                assert(s.drop_first()[j - 1] != sep);
            }
        }
    }
}

/// The first index is the one position that carries `sep` after a prefix
/// free of it.
pub proof fn lemma_first_index_at(s: Seq<char>, sep: char, i: int)
    requires
        0 <= i < s.len(),
        s[i] == sep,
        forall|j: int| 0 <= j < i ==> s[j] != sep,
    ensures
        spec_first_index(s, sep) == i,
{
    lemma_first_index(s, sep);
    let fi = spec_first_index(s, sep);
    if fi < i {
        assert(s[fi] == sep);
        assert(s[fi] != sep);
    }
    if fi > i {
        assert(s[i] != sep);
    }
}

pub proof fn lemma_first_index_none(s: Seq<char>, sep: char)
    requires
        forall|j: int| 0 <= j < s.len() ==> s[j] != sep,
    ensures
        spec_first_index(s, sep) == s.len(),
    decreases s.len(),
{
    if s.len() > 0 {
        lemma_first_index_none(s.drop_first(), sep);
    }
}

/// Split `s` on `sep`: the (possibly empty) stretches between occurrences.
pub open spec fn spec_split(s: Seq<char>, sep: char) -> Seq<Seq<char>>
    decreases s.len(),
{
    let i = spec_first_index(s, sep);
    if 0 <= i < s.len() {
        seq![s.subrange(0, i)] + spec_split(s.subrange(i + 1, s.len() as int), sep)
    } else {
        seq![s]
    }
}

pub proof fn lemma_split_none(s: Seq<char>, sep: char)
    requires
        forall|j: int| 0 <= j < s.len() ==> s[j] != sep,
    ensures
        spec_split(s, sep) == seq![s],
{
    lemma_first_index_none(s, sep);
}

pub proof fn lemma_split_at(s: Seq<char>, sep: char, i: int)
    requires
        0 <= i < s.len(),
        s[i] == sep,
        forall|j: int| 0 <= j < i ==> s[j] != sep,
    ensures
        spec_split(s, sep) == seq![s.subrange(0, i)] + spec_split(
            s.subrange(i + 1, s.len() as int),
            sep,
        ),
{
    lemma_first_index_at(s, sep, i);
}

/// Splits a string on a separator character.
pub(crate) fn split_char(s: &str, sep: char) -> (r: Vec<String>)
    ensures
        r.deep_view() == spec_split(s@, sep),
{
    let len = s.unicode_len();
    let mut r: Vec<String> = Vec::new();
    let mut start: usize = 0;
    let mut i: usize = 0;
    proof {
        assert(r.deep_view() =~= Seq::<Seq<char>>::empty());
        assert(s@.subrange(0, len as int) =~= s@);
    }
    while i < len
        invariant
            start <= i <= len,
            len == s@.len(),
            forall|j: int| start <= j < i ==> s@[j] != sep,
            spec_split(s@, sep) == r.deep_view() + spec_split(
                s@.subrange(start as int, len as int),
                sep,
            ),
        decreases len - i,
    {
        if s.get_char(i) == sep {
            let seg = s.substring_char(start, i);
            let ghost prev = r.deep_view();
            r.push(String::from_str(seg));
            proof {
                let rest = s@.subrange(start as int, len as int);
                assert(rest[i - start] == sep);
                assert forall|j: int| 0 <= j < i - start implies rest[j] != sep by {
                    assert(rest[j] == s@[start + j]);
                }
                lemma_split_at(rest, sep, i - start);
                assert(rest.subrange(0, i - start) =~= s@.subrange(start as int, i as int));
                assert(rest.subrange(i - start + 1, rest.len() as int) =~= s@.subrange(
                    i + 1,
                    len as int,
                ));
                assert(r.deep_view() =~= prev + seq![seg@]);
                assert(r.deep_view() + spec_split(s@.subrange(i + 1, len as int), sep) =~= prev
                    + spec_split(rest, sep));
            }
            start = i + 1;
        }
        i += 1;
    }
    let seg = s.substring_char(start, len);
    let ghost prev = r.deep_view();
    r.push(String::from_str(seg));
    proof {
        let rest = s@.subrange(start as int, len as int);
        assert forall|j: int| 0 <= j < rest.len() implies rest[j] != sep by {
            assert(rest[j] == s@[start + j]);
        }
        lemma_split_none(rest, sep);
        assert(r.deep_view() =~= prev + seq![seg@]);
        assert(r.deep_view() =~= prev + spec_split(rest, sep));
    }
    r
}

// ---------------------------------------------------------------------------
// Segment grammar: one decimal number, or two separated by a single dash
// ---------------------------------------------------------------------------
pub open spec fn spec_is_digit(c: char) -> bool {
    48 <= c as int <= 57
}

pub open spec fn spec_all_digits(s: Seq<char>) -> bool {
    forall|i: int| 0 <= i < s.len() ==> spec_is_digit(#[trigger] s[i])
}

/// Value of a string of decimal digits.
pub open spec fn spec_digits_val(s: Seq<char>) -> int
    decreases s.len(),
{
    if s.len() == 0 {
        0
    } else {
        spec_digits_val(s.drop_last()) * 10 + (s.last() as int - 48)
    }
}

/// A digit string that stands for a number: nonempty, digits only, and a
/// value that fits the machine word.
pub open spec fn spec_number_ok(s: Seq<char>) -> bool {
    s.len() > 0 && spec_all_digits(s) && spec_digits_val(s) <= u64::MAX
}

/// The digit string before the dash of a segment (the whole segment when
/// there is none).
pub open spec fn spec_seg_first(seg: Seq<char>) -> Seq<char> {
    let i = spec_first_index(seg, '-');
    if i < seg.len() {
        seg.subrange(0, i)
    } else {
        seg
    }
}

/// Whether the segment carries a dash and hence a second number.
pub open spec fn spec_seg_has_end(seg: Seq<char>) -> bool {
    spec_first_index(seg, '-') < seg.len()
}

/// The digit string after the dash of a segment.
pub open spec fn spec_seg_second(seg: Seq<char>) -> Seq<char> {
    seg.subrange(spec_first_index(seg, '-') + 1, seg.len() as int)
}

/// The segment matches the grammar: a number, or `number-number`.
pub open spec fn spec_seg_wellformed(seg: Seq<char>) -> bool {
    spec_number_ok(spec_seg_first(seg)) && (spec_seg_has_end(seg) ==> spec_number_ok(
        spec_seg_second(seg),
    ))
}

/// First number of the segment.
pub open spec fn spec_seg_start(seg: Seq<char>) -> int {
    spec_digits_val(spec_seg_first(seg))
}

/// Second number of the segment; when there is none, the first again, so
/// that a single month stands for the degenerate range `m..=m`.
pub open spec fn spec_seg_end(seg: Seq<char>) -> int {
    if spec_seg_has_end(seg) {
        spec_digits_val(spec_seg_second(seg))
    } else {
        spec_seg_start(seg)
    }
}

/// A fully valid segment: well-formed, months in bounds, range ascending.
pub open spec fn spec_seg_ok(seg: Seq<char>) -> bool {
    &&& spec_seg_wellformed(seg)
    &&& 1 <= spec_seg_start(seg) <= 12
    &&& spec_seg_has_end(seg) ==> (1 <= spec_seg_end(seg) <= 12 && spec_seg_start(seg)
        < spec_seg_end(seg))
}

/// Validation runs format, then month bounds, then range order; these three
/// name the step a bad segment fails at.
pub open spec fn spec_seg_err_format(seg: Seq<char>) -> bool {
    !spec_seg_wellformed(seg)
}

pub open spec fn spec_seg_err_month(seg: Seq<char>) -> bool {
    &&& spec_seg_wellformed(seg)
    &&& (!(1 <= spec_seg_start(seg) <= 12) || (spec_seg_has_end(seg) && !(1 <= spec_seg_end(seg)
        <= 12)))
}

/// The month value a bad segment is rejected for: the first number when it
/// is out of bounds, else the second.
pub open spec fn spec_seg_month_payload(seg: Seq<char>) -> int {
    if !(1 <= spec_seg_start(seg) <= 12) {
        spec_seg_start(seg)
    } else {
        spec_seg_end(seg)
    }
}

pub open spec fn spec_seg_err_order(seg: Seq<char>) -> bool {
    &&& spec_seg_wellformed(seg)
    &&& 1 <= spec_seg_start(seg) <= 12
    &&& spec_seg_has_end(seg)
    &&& 1 <= spec_seg_end(seg) <= 12
    &&& spec_seg_start(seg) >= spec_seg_end(seg)
}

/// The half-open zero-based month range of a valid segment.
pub open spec fn spec_seg_range(seg: Seq<char>) -> (u32, u32) {
    (((spec_seg_start(seg) - 1) as u32), (spec_seg_end(seg) as u32))
}

/// Index of the first occurrence of `sep`, as `spec_first_index` gives it.
pub(crate) fn find_char(s: &str, sep: char) -> (r: usize)
    ensures
        r == spec_first_index(s@, sep),
        r <= s@.len(),
{
    let len = s.unicode_len();
    let mut i: usize = 0;
    while i < len
        invariant
            i <= len,
            len == s@.len(),
            forall|j: int| 0 <= j < i ==> s@[j] != sep,
        decreases len - i,
    {
        if s.get_char(i) == sep {
            proof {
                lemma_first_index_at(s@, sep, i as int);
            }
            return i;
        }
        i += 1;
    }
    proof {
        lemma_first_index_none(s@, sep);
    }
    len
}

/// Parses a digit string, refusing anything else and values over `u64::MAX`.
pub(crate) fn parse_number(s: &str) -> (r: Option<u64>)
    ensures
        match r {
            Some(v) => spec_number_ok(s@) && v == spec_digits_val(s@),
            None => !spec_number_ok(s@),
        },
{
    let len = s.unicode_len();
    if len == 0 {
        return None;
    }
    let mut val: u128 = 0;
    let mut i: usize = 0;
    while i < len
        invariant
            i <= len,
            len == s@.len(),
            forall|j: int| 0 <= j < i ==> spec_is_digit(#[trigger] s@[j]),
            spec_digits_val(s@.subrange(0, i as int)) <= u64::MAX ==> val == spec_digits_val(
                s@.subrange(0, i as int),
            ),
            spec_digits_val(s@.subrange(0, i as int)) > u64::MAX ==> val
                == 0x1_0000_0000_0000_0000u128,
            val <= 0x1_0000_0000_0000_0000u128,
        decreases len - i,
    {
        let c = s.get_char(i);
        let cv = c as u32;
        if cv < 48 || cv > 57 {
            return None;
        }
        let ghost pre = s@.subrange(0, i as int);
        let ghost cur = s@.subrange(0, i + 1 as int);
        proof {
            assert(cur.drop_last() =~= pre);
            assert(cur.last() == s@[i as int]);
            assert(spec_digits_val(cur) == spec_digits_val(pre) * 10 + (c as int - 48));
            assert(spec_digits_val(pre) >= 0) by {
                lemma_digits_val_nonneg(pre);
            }
        }
        let nv: u128 = val * 10 + (cv - 48) as u128;
        if nv > 0xFFFF_FFFF_FFFF_FFFFu128 {
            val = 0x1_0000_0000_0000_0000u128;
            proof {
                if spec_digits_val(pre) > u64::MAX {
                    assert(spec_digits_val(cur) > u64::MAX);
                }
            }
        } else {
            val = nv;
        }
        i += 1;
    }
    proof {
        assert(s@.subrange(0, len as int) =~= s@);
    }
    if val > 0xFFFF_FFFF_FFFF_FFFFu128 {
        None
    } else {
        Some(val as u64)
    }
}

proof fn lemma_digits_val_nonneg(s: Seq<char>)
    requires
        spec_all_digits(s),
    ensures
        spec_digits_val(s) >= 0,
    decreases s.len(),
{
    if s.len() > 0 {
        assert(spec_all_digits(s.drop_last()));
        lemma_digits_val_nonneg(s.drop_last());
    }
}

/// Validates one segment: its range on success, else the error of the first
/// failing validation step (format, then month bounds, then order).
fn parse_segment(seg: &str) -> (r: Result<(u32, u32), MonthsError>)
    ensures
        match r {
            Ok(rg) => spec_seg_ok(seg@) && rg == spec_seg_range(seg@),
            Err(MonthsError::InvalidFormat(t)) => spec_seg_err_format(seg@) && t@ == seg@,
            Err(MonthsError::InvalidMonth(v)) => spec_seg_err_month(seg@) && v as int
                == spec_seg_month_payload(seg@),
            Err(MonthsError::RangeOrder(a, b)) => spec_seg_err_order(seg@) && a as int
                == spec_seg_start(seg@) && b as int == spec_seg_end(seg@),
        },
{
    let len = seg.unicode_len();
    let dash = find_char(seg, '-');
    let (first, second) = if dash < len {
        (seg.substring_char(0, dash), Some(seg.substring_char(dash + 1, len)))
    } else {
        (seg.substring_char(0, len), None)
    };
    proof {
        assert(seg@.subrange(0, len as int) =~= seg@);
    }
    let s_val = match parse_number(first) {
        Some(v) => v,
        None => {
            return Err(MonthsError::InvalidFormat(String::from_str(seg)));
        },
    };
    let e_val = match second {
        Some(sec) => match parse_number(sec) {
            Some(v) => Some(v),
            None => {
                return Err(MonthsError::InvalidFormat(String::from_str(seg)));
            },
        },
        None => None,
    };
    if s_val < 1 || s_val > 12 {
        return Err(MonthsError::InvalidMonth(s_val));
    }
    match e_val {
        Some(e) => {
            if e < 1 || e > 12 {
                Err(MonthsError::InvalidMonth(e))
            } else if s_val >= e {
                Err(MonthsError::RangeOrder(s_val, e))
            } else {
                Ok((((s_val - 1) as u32), (e as u32)))
            }
        },
        None => Ok((((s_val - 1) as u32), (s_val as u32))),
    }
}

// ---------------------------------------------------------------------------
// Sorting ranges by (start, end)
// ---------------------------------------------------------------------------
/// Lexicographic order on half-open ranges: by start, then by end.
pub open spec fn range_le(a: (u32, u32), b: (u32, u32)) -> bool {
    a.0 < b.0 || (a.0 == b.0 && a.1 <= b.1)
}

/// The order as a function value, for `sort_by` and `sorted_by`.
pub open spec fn range_leq() -> spec_fn((u32, u32), (u32, u32)) -> bool {
    |a: (u32, u32), b: (u32, u32)| range_le(a, b)
}

pub proof fn lemma_range_leq_total()
    ensures
        total_ordering(range_leq()),
{
    assert forall|x: (u32, u32), y: (u32, u32)| #[trigger] range_leq()(x, y) && #[trigger] range_leq()(
        y,
        x,
    ) implies x == y by {
        assert(x.0 == y.0 && x.1 == y.1);
    }
}

/// The range list in ascending `(start, end)` order.
pub open spec fn spec_sort_ranges(rs: Seq<(u32, u32)>) -> Seq<(u32, u32)> {
    rs.sort_by(range_leq())
}

fn range_le_exec(a: (u32, u32), b: (u32, u32)) -> (r: bool)
    ensures
        r == range_le(a, b),
{
    a.0 < b.0 || (a.0 == b.0 && a.1 <= b.1)
}

fn insert_sorted(v: Vec<(u32, u32)>, x: (u32, u32)) -> (r: Vec<(u32, u32)>)
    requires
        sorted_by(v@, range_leq()),
    ensures
        sorted_by(r@, range_leq()),
        r@.to_multiset() == v@.to_multiset().insert(x),
{
    let mut v = v;
    let mut k: usize = 0;
    while k < v.len() && !range_le_exec(x, v[k])
        invariant
            k <= v@.len(),
            sorted_by(v@, range_leq()),
            forall|j: int| 0 <= j < k ==> !range_le(x, v@[j]),
        decreases v@.len() - k,
    {
        k += 1;
    }
    let ghost old_view = v@;
    v.insert(k, x);
    proof {
        lemma_range_leq_total();
        assert forall|i: int, j: int| 0 <= i < j < v@.len() implies #[trigger] range_leq()(
            v@[i],
            v@[j],
        ) by {
            if i < k && j == k {
                assert(!range_le(x, old_view[i]));
                assert(range_le(old_view[i], x));
            } else if i == k && j > k {
                if k < old_view.len() {
                    assert(range_le(x, old_view[k as int]));
                    assert(range_leq()(old_view[k as int], old_view[j - 1]) || k == j - 1);
                }
            } else if i < k && j > k {
                assert(range_leq()(old_view[i], old_view[j - 1]));
            } else if i > k && j > k {
                assert(range_leq()(old_view[i - 1], old_view[j - 1]));
            }
        }
        assert(v@.to_multiset() == old_view.to_multiset().insert(x)) by {
            broadcast use vstd::seq_lib::to_multiset_insert;

        }
    }
    v
}

/// Sorts the range list ascending by `(start, end)`.
pub fn sort_month_range_list(l: &Vec<(u32, u32)>) -> (r: Vec<(u32, u32)>)
    ensures
        r@ == spec_sort_ranges(l@),
{
    let mut r: Vec<(u32, u32)> = Vec::new();
    let mut i: usize = 0;
    proof {
        assert(l@.subrange(0, 0) =~= Seq::<(u32, u32)>::empty());
        assert(r@.to_multiset() =~= l@.subrange(0, 0).to_multiset());
    }
    while i < l.len()
        invariant
            i <= l@.len(),
            sorted_by(r@, range_leq()),
            r@.to_multiset() == l@.subrange(0, i as int).to_multiset(),
        decreases l@.len() - i,
    {
        let ghost pre = l@.subrange(0, i as int);
        r = insert_sorted(r, l[i]);
        proof {
            assert(l@.subrange(0, i + 1) =~= pre.push(l@[i as int]));
            broadcast use vstd::seq_lib::to_multiset_build;

        }
        i += 1;
    }
    proof {
        assert(l@.subrange(0, l@.len() as int) =~= l@);
        lemma_range_leq_total();
        l@.lemma_sort_by_ensures(range_leq());
        lemma_sorted_unique(r@, spec_sort_ranges(l@), range_leq());
        assert(r@ =~= spec_sort_ranges(l@));
    }
    r
}

// ---------------------------------------------------------------------------
// Flattening sorted ranges against an advancing offset
// ---------------------------------------------------------------------------
/// The months `lo+1 ..= hi` (one-based), empty when `hi <= lo`.
pub open spec fn spec_month_run(lo: int, hi: int) -> Seq<u32> {
    Seq::new(
        if hi >= lo {
            (hi - lo) as nat
        } else {
            0
        },
        |i: int| (lo + 1 + i) as u32,
    )
}

/// Left-to-right flattening of ranges: each range is clipped below by the
/// running offset and above by 12, contributes the months of the clipped
/// stretch, and advances the offset to the clipped end when that lies
/// beyond it.  The offset never moves backwards, so no month is ever
/// emitted twice and the output is strictly ascending.
pub open spec fn spec_flatten(rs: Seq<(u32, u32)>, offset: int) -> Seq<u32>
    decreases rs.len(),
{
    if rs.len() == 0 {
        Seq::empty()
    } else {
        let s = if offset >= rs[0].0 {
            offset
        } else {
            rs[0].0 as int
        };
        let e = if rs[0].1 > 12 {
            12int
        } else {
            rs[0].1 as int
        };
        let next = if e >= offset {
            e
        } else {
            offset
        };
        spec_month_run(s, e) + spec_flatten(rs.drop_first(), next)
    }
}

/// The flattened months are strictly ascending, above the offset, and at
/// most 12: the running offset never falls back, so later ranges only
/// contribute months beyond everything already emitted.
pub proof fn lemma_flatten_ascending(rs: Seq<(u32, u32)>, offset: int)
    requires
        0 <= offset,
    ensures
        forall|i: int, j: int|
            0 <= i < j < spec_flatten(rs, offset).len() ==> #[trigger] spec_flatten(rs, offset)[i]
                < #[trigger] spec_flatten(rs, offset)[j],
        forall|i: int|
            0 <= i < spec_flatten(rs, offset).len() ==> offset < #[trigger] spec_flatten(
                rs,
                offset,
            )[i] <= 12,
    decreases rs.len(),
{
    if rs.len() > 0 {
        let s = if offset >= rs[0].0 {
            offset
        } else {
            rs[0].0 as int
        };
        let e = if rs[0].1 > 12 {
            12int
        } else {
            rs[0].1 as int
        };
        let next = if e >= offset {
            e
        } else {
            offset
        };
        lemma_flatten_ascending(rs.drop_first(), next);
        let run = spec_month_run(s, e);
        let rest = spec_flatten(rs.drop_first(), next);
        let v = spec_flatten(rs, offset);
        assert(v == run + rest);
        assert forall|i: int| 0 <= i < v.len() implies offset < #[trigger] v[i] <= 12 by {
            if i < run.len() {
                assert(v[i] == run[i]);
                assert(run[i] == s + 1 + i);
            } else {
                assert(v[i] == rest[i - run.len()]);
            }
        }
        assert forall|i: int, j: int| 0 <= i < j < v.len() implies #[trigger] v[i] < #[trigger] v[j] by {
            if j < run.len() {
                assert(v[i] == s + 1 + i && v[j] == s + 1 + j);
            } else if i >= run.len() {
                assert(v[i] == rest[i - run.len()] && v[j] == rest[j - run.len()]);
            } else {
                assert(v[i] == s + 1 + i);
                assert(v[i] <= e <= next);
                assert(next < rest[j - run.len()]);
                assert(v[j] == rest[j - run.len()]);
            }
        }
    }
}

/// Clips `range` against `offset` below and the table length above, and
/// hands back the advanced offset (never below the one given) and the
/// table entries of the clipped stretch.
pub fn extract_month(arr: &Vec<u32>, offset: usize, range: (u32, u32)) -> (r: (usize, Vec<u32>))
    ensures
        ({
            let e = if arr@.len() <= range.1 {
                arr@.len() as int
            } else {
                range.1 as int
            };
            r.0 == if e >= offset {
                e
            } else {
                offset as int
            }
        }),
        ({
            let s = if offset >= range.0 {
                offset as int
            } else {
                range.0 as int
            };
            let e = if arr@.len() <= range.1 {
                arr@.len() as int
            } else {
                range.1 as int
            };
            r.1@ == if s > e {
                Seq::<u32>::empty()
            } else {
                arr@.subrange(s, e)
            }
        }),
{
    let s: usize = if offset >= range.0 as usize {
        offset
    } else {
        range.0 as usize
    };
    let e: usize = if arr.len() <= range.1 as usize {
        arr.len()
    } else {
        range.1 as usize
    };
    let next: usize = if e >= offset {
        e
    } else {
        offset
    };
    let mut part: Vec<u32> = Vec::new();
    if s > e {
        proof {
            assert(part@ =~= Seq::<u32>::empty());
        }
        return (next, part);
    }
    let mut j: usize = s;
    while j < e
        invariant
            s <= j <= e <= arr@.len(),
            part@ == arr@.subrange(s as int, j as int),
        decreases e - j,
    {
        part.push(arr[j]);
        proof {
            assert(arr@.subrange(s as int, j + 1) =~= arr@.subrange(s as int, j as int).push(
                arr@[j as int],
            ));
        }
        j += 1;
    }
    proof {
        assert(part@ =~= arr@.subrange(s as int, e as int));
    }
    (next, part)
}

// ---------------------------------------------------------------------------
// The parser
// ---------------------------------------------------------------------------
/// The comma-separated segments of a selection string.
pub open spec fn spec_segments(s: Seq<char>) -> Seq<Seq<char>> {
    spec_split(s, ',')
}

/// Index of the first invalid segment, or the number of segments if all are
/// valid.
pub open spec fn spec_first_bad(segs: Seq<Seq<char>>) -> int
    decreases segs.len(),
{
    if segs.len() == 0 {
        0
    } else if !spec_seg_ok(segs[0]) {
        0
    } else {
        1 + spec_first_bad(segs.drop_first())
    }
}

pub proof fn lemma_first_bad(segs: Seq<Seq<char>>)
    ensures
        0 <= spec_first_bad(segs) <= segs.len(),
        spec_first_bad(segs) < segs.len() ==> !spec_seg_ok(segs[spec_first_bad(segs)]),
        forall|j: int| 0 <= j < spec_first_bad(segs) ==> spec_seg_ok(#[trigger] segs[j]),
    decreases segs.len(),
{
    if segs.len() > 0 && spec_seg_ok(segs[0]) {
        lemma_first_bad(segs.drop_first());
        assert forall|j: int| 0 <= j < spec_first_bad(segs) implies spec_seg_ok(
            #[trigger] segs[j],
        ) by {
            if j > 0 {
                assert(spec_seg_ok(segs.drop_first()[j - 1]));
            }
        }
    }
}

pub proof fn lemma_first_bad_at(segs: Seq<Seq<char>>, i: int)
    requires
        0 <= i < segs.len(),
        !spec_seg_ok(segs[i]),
        forall|j: int| 0 <= j < i ==> spec_seg_ok(#[trigger] segs[j]),
    ensures
        spec_first_bad(segs) == i,
{
    lemma_first_bad(segs);
    let fb = spec_first_bad(segs);
    if fb < i {
        assert(spec_seg_ok(segs[fb]));
    }
    if fb > i {
        assert(spec_seg_ok(segs[i]));
    }
}

pub proof fn lemma_first_bad_none(segs: Seq<Seq<char>>)
    requires
        forall|j: int| 0 <= j < segs.len() ==> spec_seg_ok(#[trigger] segs[j]),
    ensures
        spec_first_bad(segs) == segs.len(),
{
    lemma_first_bad(segs);
    let fb = spec_first_bad(segs);
    if fb < segs.len() {
        assert(spec_seg_ok(segs[fb]));
    }
}

/// All segments of the selection are valid.
pub open spec fn spec_all_ok(s: Seq<char>) -> bool {
    spec_first_bad(spec_segments(s)) == spec_segments(s).len()
}

/// The half-open zero-based ranges of the selection's segments, in input
/// order.
pub open spec fn spec_ranges(s: Seq<char>) -> Seq<(u32, u32)> {
    spec_segments(s).map_values(|seg: Seq<char>| spec_seg_range(seg))
}

/// The months a valid selection denotes: its ranges sorted, then flattened
/// from offset 0.
pub open spec fn spec_months_value(s: Seq<char>) -> Seq<u32> {
    spec_flatten(spec_sort_ranges(spec_ranges(s)), 0)
}

/// Parses a month selection string into a strictly ascending,
/// duplicate-free month list, or the error of the first invalid segment.
pub fn parse_months(value: &str) -> (r: Result<Months, MonthsError>)
    ensures
        ({
            let segs = spec_segments(value@);
            let fb = spec_first_bad(segs);
            match r {
                Ok(months) => spec_all_ok(value@) && months@ == spec_months_value(value@) && (
                forall|i: int, j: int|
                    0 <= i < j < months@.len() ==> months@[i] < months@[j]) && (forall|i: int|
                    0 <= i < months@.len() ==> 1 <= #[trigger] months@[i] <= 12),
                Err(MonthsError::InvalidFormat(t)) => fb < segs.len() && spec_seg_err_format(
                    segs[fb],
                ) && t@ == segs[fb],
                Err(MonthsError::InvalidMonth(v)) => fb < segs.len() && spec_seg_err_month(segs[fb])
                    && v as int == spec_seg_month_payload(segs[fb]),
                Err(MonthsError::RangeOrder(a, b)) => fb < segs.len() && spec_seg_err_order(
                    segs[fb],
                ) && a as int == spec_seg_start(segs[fb]) && b as int == spec_seg_end(segs[fb]),
            }
        }),
{
    let segs = split_char(value, ',');
    let ghost gsegs = spec_segments(value@);
    let mut ranges: Vec<(u32, u32)> = Vec::new();
    let mut idx: usize = 0;
    while idx < segs.len()
        invariant
            idx <= segs@.len(),
            segs.deep_view() == gsegs,
            gsegs == spec_segments(value@),
            forall|j: int| 0 <= j < idx ==> spec_seg_ok(#[trigger] gsegs[j]),
            ranges@ == gsegs.subrange(0, idx as int).map_values(
                |seg: Seq<char>| spec_seg_range(seg),
            ),
        decreases segs@.len() - idx,
    {
        let ghost pre = gsegs.subrange(0, idx as int);
        match parse_segment(segs[idx].as_str()) {
            Ok(rg) => {
                ranges.push(rg);
                proof {
                    assert(gsegs.subrange(0, idx + 1) =~= pre.push(gsegs[idx as int]));
                    assert(ranges@ =~= gsegs.subrange(0, idx + 1).map_values(
                        |seg: Seq<char>| spec_seg_range(seg),
                    ));
                }
            },
            Err(e) => {
                proof {
                    lemma_first_bad_at(gsegs, idx as int);
                }
                return Err(e);
            },
        }
        idx += 1;
    }
    proof {
        lemma_first_bad_none(gsegs);
        assert(gsegs.subrange(0, gsegs.len() as int) =~= gsegs);
        assert(ranges@ == spec_ranges(value@));
    }
    let sorted = sort_month_range_list(&ranges);
    let mut m12: Vec<u32> = Vec::new();
    let mut m: u32 = 1;
    while m <= 12
        invariant
            1 <= m <= 13,
            m12@.len() == m - 1,
            forall|j: int| 0 <= j < m12@.len() ==> m12@[j] == j + 1,
        decreases 13 - m,
    {
        m12.push(m);
        m += 1;
    }
    let mut months: Vec<u32> = Vec::new();
    let mut offset: usize = 0;
    let mut k: usize = 0;
    proof {
        assert(sorted@.subrange(0, sorted@.len() as int) =~= sorted@);
        assert(sorted@.skip(0) =~= sorted@);
        assert(months@ + spec_flatten(sorted@, 0) =~= spec_flatten(sorted@, 0));
    }
    while k < sorted.len()
        invariant
            k <= sorted@.len(),
            offset <= 12,
            m12@.len() == 12,
            forall|j: int| 0 <= j < 12 ==> m12@[j] == j + 1,
            months@ + spec_flatten(sorted@.skip(k as int), offset as int) == spec_flatten(
                sorted@,
                0,
            ),
        decreases sorted@.len() - k,
    {
        let rg = sorted[k];
        let (next, mut part) = extract_month(&m12, offset, rg);
        proof {
            let rest = sorted@.skip(k as int);
            assert(rest[0] == rg);
            assert(rest.drop_first() =~= sorted@.skip(k + 1));
            let s = if offset >= rg.0 {
                offset as int
            } else {
                rg.0 as int
            };
            let e = if rg.1 > 12 {
                12int
            } else {
                rg.1 as int
            };
            let adv = if e >= offset {
                e
            } else {
                offset as int
            };
            assert(next == adv);
            assert(part@ =~= spec_month_run(s, e));
            assert(spec_flatten(rest, offset as int) == spec_month_run(s, e) + spec_flatten(
                sorted@.skip(k + 1),
                adv,
            ));
        }
        months.append(&mut part);
        offset = next;
        k += 1;
    }
    proof {
        assert(sorted@.skip(sorted@.len() as int) =~= Seq::<(u32, u32)>::empty());
        assert(months@ =~= months@ + spec_flatten(sorted@.skip(sorted@.len() as int), offset as int));
        assert(months@ == spec_months_value(value@));
        lemma_flatten_ascending(sorted@, 0);
    }
    Ok(months)
}

// ---------------------------------------------------------------------------
// Laws of the parser
// ---------------------------------------------------------------------------
proof fn lemma_num_chars_props(n: int)
    requires
        0 <= n,
    ensures
        spec_num_chars(n).len() >= 1,
        spec_all_digits(spec_num_chars(n)),
        spec_digits_val(spec_num_chars(n)) == n,
    decreases n,
{
    if n < 10 {
        let s = spec_num_chars(n);
        assert(s == seq![spec_digit_char(n)]);
        assert(s[0] as int == 48 + n);
        assert(s.drop_last() =~= Seq::<char>::empty());
        assert(spec_digits_val(Seq::<char>::empty()) == 0);
        assert(spec_digits_val(s) == n);
    } else {
        lemma_num_chars_props(n / 10);
        let s = spec_num_chars(n);
        let head = spec_num_chars(n / 10);
        assert(s == head.push(spec_digit_char(n % 10)));
        assert(s.drop_last() =~= head);
        assert(s.last() as int == 48 + n % 10);
        assert forall|i: int| 0 <= i < s.len() implies spec_is_digit(#[trigger] s[i]) by {
            if i < head.len() {
                assert(s[i] == head[i]);
            }
        }
        assert(spec_digits_val(s) == spec_digits_val(head) * 10 + n % 10);
        assert(spec_digits_val(s) == n);
    }
}

proof fn lemma_digits_not_separator(s: Seq<char>)
    requires
        spec_all_digits(s),
    ensures
        forall|j: int| 0 <= j < s.len() ==> s[j] != ',',
        forall|j: int| 0 <= j < s.len() ==> s[j] != '-',
{
    assert(',' as int == 44);
    assert('-' as int == 45);
    assert forall|j: int| 0 <= j < s.len() implies s[j] != ',' && s[j] != '-' by {
        assert(spec_is_digit(s[j]));
    }
}

/// A single valid month stands for itself: the selection that is just the
/// decimal rendering of a month `m` in `1..=12` parses to the one-element
/// list `[m]`.
pub proof fn lemma_parse_single(s: Seq<char>, m: u32)
    requires
        1 <= m <= 12,
        s == spec_num_chars(m as int),
    ensures
        spec_all_ok(s),
        spec_months_value(s) == seq![m],
{
    lemma_num_chars_props(m as int);
    lemma_digits_not_separator(s);
    lemma_split_none(s, ',');
    let segs = spec_segments(s);
    assert(segs == seq![s]);
    lemma_first_index_none(s, '-');
    assert(!spec_seg_has_end(s));
    assert(spec_seg_first(s) == s);
    assert(spec_seg_start(s) == m);
    assert(spec_seg_ok(s));
    assert(segs.drop_first() =~= Seq::<Seq<char>>::empty());
    assert(spec_first_bad(Seq::<Seq<char>>::empty()) == 0);
    assert(spec_first_bad(segs) == 1);
    let ranges = spec_ranges(s);
    assert(ranges =~= seq![spec_seg_range(s)]);
    assert(spec_seg_range(s) == (((m - 1) as u32), m));
    lemma_range_leq_total();
    ranges.lemma_sort_by_ensures(range_leq());
    lemma_sorted_unique(spec_sort_ranges(ranges), ranges, range_leq());
    assert(spec_sort_ranges(ranges) == ranges);
    let flat = spec_flatten(ranges, 0);
    assert(ranges.drop_first() =~= Seq::<(u32, u32)>::empty());
    assert(flat == spec_month_run(m - 1, m as int) + spec_flatten(Seq::empty(), m as int));
    assert(flat =~= seq![m]);
}

/// A valid range stands for its months: the selection `a-b` with
/// `1 <= a < b <= 12` parses to `[a, a+1, ..., b]`.
pub proof fn lemma_parse_range(s: Seq<char>, a: u32, b: u32)
    requires
        1 <= a < b <= 12,
        s == spec_num_chars(a as int) + seq!['-'] + spec_num_chars(b as int),
    ensures
        spec_all_ok(s),
        spec_months_value(s) == Seq::new((b - a + 1) as nat, |i: int| (a + i) as u32),
{
    let na = spec_num_chars(a as int);
    let nb = spec_num_chars(b as int);
    lemma_num_chars_props(a as int);
    lemma_num_chars_props(b as int);
    lemma_digits_not_separator(na);
    lemma_digits_not_separator(nb);
    let la = na.len() as int;
    assert(',' as int == 44 && '-' as int == 45);
    assert forall|j: int| 0 <= j < s.len() implies s[j] != ',' by {
        if j < la {
            assert(s[j] == na[j]);
        } else if j == la {
            assert(s[j] == '-');
        } else {
            assert(s[j] == nb[j - la - 1]);
        }
    }
    lemma_split_none(s, ',');
    let segs = spec_segments(s);
    assert(segs == seq![s]);
    assert forall|j: int| 0 <= j < la implies s[j] != '-' by {
        assert(s[j] == na[j]);
    }
    assert(s[la] == '-');
    lemma_first_index_at(s, '-', la);
    assert(spec_seg_has_end(s));
    assert(spec_seg_first(s) =~= na);
    assert(spec_seg_second(s) =~= nb);
    assert(spec_seg_start(s) == a);
    assert(spec_seg_end(s) == b);
    assert(spec_seg_ok(s));
    assert(segs.drop_first() =~= Seq::<Seq<char>>::empty());
    assert(spec_first_bad(Seq::<Seq<char>>::empty()) == 0);
    assert(spec_first_bad(segs) == 1);
    let ranges = spec_ranges(s);
    assert(ranges =~= seq![spec_seg_range(s)]);
    assert(spec_seg_range(s) == (((a - 1) as u32), b));
    lemma_range_leq_total();
    ranges.lemma_sort_by_ensures(range_leq());
    lemma_sorted_unique(spec_sort_ranges(ranges), ranges, range_leq());
    assert(spec_sort_ranges(ranges) == ranges);
    let flat = spec_flatten(ranges, 0);
    assert(ranges.drop_first() =~= Seq::<(u32, u32)>::empty());
    assert(flat == spec_month_run(a - 1, b as int) + spec_flatten(Seq::empty(), b as int));
    assert(flat =~= Seq::new((b - a + 1) as nat, |i: int| (a + i) as u32));
}

/// The order of segments does not matter: two selections whose segments
/// denote the same ranges, in whatever order, parse to the same months.
pub proof fn lemma_order_independence(s1: Seq<char>, s2: Seq<char>)
    requires
        spec_ranges(s1).to_multiset() == spec_ranges(s2).to_multiset(),
    ensures
        spec_months_value(s1) == spec_months_value(s2),
{
    lemma_range_leq_total();
    spec_ranges(s1).lemma_sort_by_ensures(range_leq());
    spec_ranges(s2).lemma_sort_by_ensures(range_leq());
    lemma_sorted_unique(
        spec_sort_ranges(spec_ranges(s1)),
        spec_sort_ranges(spec_ranges(s2)),
        range_leq(),
    );
    assert(spec_sort_ranges(spec_ranges(s1)) == spec_sort_ranges(spec_ranges(s2)));
}


/// The diagnostic message of an error, naming the offending input.
pub open spec fn spec_message(e: MonthsError) -> Seq<char> {
    match e {
        MonthsError::InvalidFormat(t) => "illegal list value: \""@ + t@ + "\""@,
        MonthsError::InvalidMonth(v) => "invalid month: \""@ + spec_num_chars(v as int) + "\""@,
        MonthsError::RangeOrder(a, b) => "First month in range ("@ + spec_num_chars(a as int)
            + ") must be lower than second month ("@ + spec_num_chars(b as int) + ")"@,
    }
}

impl MonthsError {
    /// Renders the error for diagnostics.
    pub fn message(&self) -> (r: String)
        ensures
            r@ == spec_message(*self),
    {
        match self {
            MonthsError::InvalidFormat(t) => {
                let mut r = String::from_str("illegal list value: \"");
                r.append(t.as_str());
                r.append("\"");
                r
            },
            MonthsError::InvalidMonth(v) => {
                let mut r = String::from_str("invalid month: \"");
                let n = num_string(*v);
                r.append(n.as_str());
                r.append("\"");
                r
            },
            MonthsError::RangeOrder(a, b) => {
                let mut r = String::from_str("First month in range (");
                let na = num_string(*a);
                r.append(na.as_str());
                r.append(") must be lower than second month (");
                let nb = num_string(*b);
                r.append(nb.as_str());
                r.append(")");
                r
            },
        }
    }
}

} // verus!
