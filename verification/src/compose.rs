//! Page composer: sets rendered months side by side, up to three per row,
//! with a blank line between rows of months and an optional year banner.

use crate::render::{spec_center, spec_num_chars, center_in, num_string};
use vstd::prelude::*;

verus! {

/// Concatenation of line `i` of each month of the chunk, in order.
pub open spec fn spec_row_concat(chunk: Seq<Seq<Seq<char>>>, i: int) -> Seq<char>
    decreases chunk.len(),
{
    if chunk.len() == 0 {
        Seq::empty()
    } else {
        spec_row_concat(chunk.drop_last(), i) + chunk.last()[i]
    }
}

/// The lines of one row of months: the months' lines interleaved by index.
pub open spec fn spec_chunk_rows(chunk: Seq<Seq<Seq<char>>>, height: int) -> Seq<Seq<char>> {
    Seq::new(height as nat, |i: int| spec_row_concat(chunk, i))
}

/// All months set in rows of up to three, a blank line between rows.
pub open spec fn spec_compose_chunks(ms: Seq<Seq<Seq<char>>>, height: int) -> Seq<Seq<char>>
    decreases ms.len(),
{
    if ms.len() == 0 {
        Seq::empty()
    } else if ms.len() <= 3 {
        spec_chunk_rows(ms, height)
    } else {
        spec_chunk_rows(ms.take(3), height) + seq![Seq::<char>::empty()] + spec_compose_chunks(
            ms.skip(3),
            height,
        )
    }
}

/// The composed page: when the year does not stand in the single month's
/// header, a centered year banner opens the page, 40 columns wide for two
/// months and 60 for any other count.
pub open spec fn spec_compose(ms: Seq<Seq<Seq<char>>>, height: int, y: int, show_year: bool) -> Seq<
    Seq<char>,
> {
    if show_year {
        spec_compose_chunks(ms, height)
    } else {
        let w: nat = if ms.len() == 2 {
            40nat
        } else {
            60nat
        };
        seq![spec_center(spec_num_chars(y), w)] + spec_compose_chunks(ms, height)
    }
}

/// Interleaves the months of one chunk: output line `i` is the
/// concatenation of the months' lines `i`.
fn chunk_lines(months: &Vec<Vec<String>>, from: usize, cnt: usize, out: &mut Vec<String>)
    requires
        from + cnt <= months@.len(),
        months@.len() <= usize::MAX,
        forall|j: int| 0 <= j < months@.len() ==> (#[trigger] months@[j])@.len() == 8,
    ensures
        final(out).deep_view() == old(out).deep_view() + spec_chunk_rows(
            months.deep_view().subrange(from as int, from + cnt),
            8,
        ),
{
    let ghost chunk = months.deep_view().subrange(from as int, from + cnt);
    let ghost base = old(out).deep_view();
    let mut i: usize = 0;
    proof {
        assert(base + spec_chunk_rows(chunk, 8).subrange(0, 0) =~= base);
    }
    while i < 8
        invariant
            i <= 8,
            from + cnt <= months@.len(),
            months@.len() <= usize::MAX,
            forall|j: int| 0 <= j < months@.len() ==> (#[trigger] months@[j])@.len() == 8,
            chunk == months.deep_view().subrange(from as int, from + cnt),
            out.deep_view() == base + spec_chunk_rows(chunk, 8).subrange(0, i as int),
        decreases 8 - i,
    {
        let mut line = String::new();
        let mut j: usize = 0;
        proof {
            assert(line@ =~= spec_row_concat(chunk.subrange(0, 0), i as int));
        }
        while j < cnt
            invariant
                j <= cnt,
                i < 8,
                from + cnt <= months@.len(),
                months@.len() <= usize::MAX,
                forall|k: int| 0 <= k < months@.len() ==> (#[trigger] months@[k])@.len() == 8,
                chunk == months.deep_view().subrange(from as int, from + cnt),
                line@ == spec_row_concat(chunk.subrange(0, j as int), i as int),
            decreases cnt - j,
        {
            proof {
                assert(from + j < months@.len());
            }
            let month = &months[from + j];
            line.append(month[i].as_str());
            proof {
                let part = chunk.subrange(0, j + 1);
                assert(part.drop_last() =~= chunk.subrange(0, j as int));
                assert(part.last() == months.deep_view()[from + j]);
                assert(part.last()[i as int] == months@[from + j]@[i as int]@);
            }
            j += 1;
        }
        let ghost prev = out.deep_view();
        proof {
            assert(chunk.subrange(0, cnt as int) =~= chunk);
            assert(line@ == spec_row_concat(chunk, i as int));
        }
        out.push(line);
        proof {
            assert(out.deep_view() =~= prev.push(spec_chunk_rows(chunk, 8)[i as int]));
            assert(spec_chunk_rows(chunk, 8).subrange(0, i + 1) =~= spec_chunk_rows(
                chunk,
                8,
            ).subrange(0, i as int).push(spec_chunk_rows(chunk, 8)[i as int]));
        }
        i += 1;
    }
    proof {
        assert(spec_chunk_rows(chunk, 8).subrange(0, 8) =~= spec_chunk_rows(chunk, 8));
    }
}

/// Composes rendered months into the lines of a page: rows of up to three
/// months interleaved line by line, a blank line between rows, and the year
/// banner when no month header carries the year.
///
/// Composing is pure: the `ensures` fixes the whole page as a function of
/// the rendered months and the year label alone, so running the composer
/// again on the same months yields the identical lines.
pub fn compose_months(year: i32, months: &Vec<Vec<String>>, show_year: bool) -> (r: Vec<String>)
    requires
        1 <= year <= 9999,
        forall|j: int| 0 <= j < months@.len() ==> (#[trigger] months@[j])@.len() == 8,
    ensures
        r.deep_view() == spec_compose(months.deep_view(), 8, year as int, show_year),
{
    let ghost ms = months.deep_view();
    let mut out: Vec<String> = Vec::new();
    if !show_year {
        let width: usize = if months.len() == 2 {
            40
        } else {
            60
        };
        let ys = num_string(year as u64);
        out.push(center_in(ys.as_str(), width));
    }
    let ghost base = out.deep_view();
    let mut c: usize = 0;
    proof {
        assert(ms.skip(0) =~= ms);
        assert(out.deep_view() =~= base + spec_compose_chunks(ms, 8).subrange(0, 0));
    }
    while c < months.len()
        invariant
            c <= months@.len(),
            ms == months.deep_view(),
            1 <= year <= 9999,
            forall|j: int| 0 <= j < months@.len() ==> (#[trigger] months@[j])@.len() == 8,
            base + spec_compose_chunks(ms, 8) == out.deep_view() + (if c < ms.len() {
                (if c > 0 {
                    seq![Seq::<char>::empty()]
                } else {
                    Seq::<Seq<char>>::empty()
                }) + spec_compose_chunks(ms.skip(c as int), 8)
            } else {
                Seq::<Seq<char>>::empty()
            }),
        decreases months@.len() - c,
    {
        if c > 0 {
            out.push(String::new());
        }
        let rem = months.len() - c;
        let cnt: usize = if rem <= 3 {
            rem
        } else {
            3
        };
        let ghost rest = ms.skip(c as int);
        chunk_lines(months, c, cnt, &mut out);
        proof {
            assert(ms.subrange(c as int, c + cnt) =~= rest.take(cnt as int));
            if rem <= 3 {
                assert(rest.take(cnt as int) =~= rest);
                assert(spec_compose_chunks(rest, 8) == spec_chunk_rows(rest, 8));
            } else {
                assert(spec_compose_chunks(rest, 8) == spec_chunk_rows(rest.take(3), 8)
                    + seq![Seq::<char>::empty()] + spec_compose_chunks(rest.skip(3), 8));
                assert(rest.skip(3) =~= ms.skip(c + 3));
            }
            assert(base + spec_compose_chunks(ms, 8) =~= out.deep_view() + (if c + cnt < ms.len() {
                seq![Seq::<char>::empty()] + spec_compose_chunks(ms.skip(c + cnt), 8)
            } else {
                Seq::<Seq<char>>::empty()
            }));
        }
        c += cnt;
    }
    proof {
        assert(out.deep_view() =~= base + spec_compose_chunks(ms, 8));
        assert(out.deep_view() =~= spec_compose(ms, 8, year as int, show_year));
    }
    out
}

} // verus!
