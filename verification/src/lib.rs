//! A text calendar library: a month-range selection parser, Gregorian
//! day-grid construction, a holiday index, and month/page rendering.

pub mod calendar;
pub mod compose;
pub mod consts;
pub mod holiday;
pub mod months_parser;
pub mod render;

use crate::compose::{compose_months, spec_compose};
use crate::consts::Lang;
use crate::render::{format_month, spec_month_lines};
use vstd::prelude::*;

verus! {

/// The resolved command inputs: which months of which year to show, in
/// which language.  Unset months or year fall back to the current date.
#[derive(Debug)]
pub struct Config {
    /// Months selected explicitly, as the selection parser hands them out.
    pub months: Option<Vec<u32>>,
    /// Year selected explicitly, `1..=9999`.
    pub year: Option<i32>,
    /// Show the whole current year.
    pub cur_year: bool,
    /// Display language.
    pub lang: Lang,
}

/// The canonical month list of a whole year.
pub open spec fn spec_all_months() -> Seq<u32> {
    Seq::new(12, |i: int| (i + 1) as u32)
}

/// Resolves the configuration against the current date: the year to show,
/// the months to show, and whether the year belongs in the month header
/// (it does exactly when a single month is shown).  The whole year is shown
/// when asked for, and also when a year is given without months.
pub fn select_months(config: Config, today_year: i32, today_month: u32) -> (r: (i32, Vec<u32>, bool))
    requires
        config.year is Some ==> 1 <= config.year->0 <= 9999,
        config.months is Some ==> forall|j: int|
            0 <= j < config.months->0@.len() ==> 1 <= #[trigger] config.months->0@[j] <= 12,
        1 <= today_year <= 9999,
        1 <= today_month <= 12,
    ensures
        r.0 == (if config.year is Some {
            config.year->0
        } else {
            today_year
        }),
        r.1@ == (if config.cur_year || (config.year is Some && config.months is None) {
            spec_all_months()
        } else if config.months is Some {
            config.months->0@
        } else {
            seq![today_month]
        }),
        r.2 == (r.1@.len() == 1),
        1 <= r.0 <= 9999,
        forall|j: int| 0 <= j < r.1@.len() ==> 1 <= #[trigger] r.1@[j] <= 12,
{
    let whole_year = config.cur_year || (config.year.is_some() && config.months.is_none());
    let year = match config.year {
        Some(y) => y,
        None => today_year,
    };
    let months: Vec<u32> = if whole_year {
        let mut all: Vec<u32> = Vec::new();
        let mut m: u32 = 1;
        while m <= 12
            invariant
                1 <= m <= 13,
                all@.len() == m - 1,
                forall|j: int| 0 <= j < all@.len() ==> all@[j] == j + 1,
            decreases 13 - m,
        {
            all.push(m);
            m += 1;
        }
        proof {
            assert(all@ =~= spec_all_months());
        }
        all
    } else {
        match config.months {
            Some(v) => v,
            None => {
                let mut one: Vec<u32> = Vec::new();
                one.push(today_month);
                proof {
                    assert(one@ =~= seq![today_month]);
                }
                one
            },
        }
    };
    let show_year = months.len() == 1;
    (year, months, show_year)
}

/// The full page for a month list: each month rendered, then composed.
pub open spec fn spec_page(y: int, months: Seq<u32>, lang: Lang, show_year: bool) -> Seq<Seq<char>> {
    spec_compose(
        months.map_values(|m: u32| spec_month_lines(y, m as int, lang, show_year)),
        8,
        y,
        show_year,
    )
}

/// Renders a list of months as the plain-text lines of a page.
pub fn render_months(year: i32, months: &Vec<u32>, lang: Lang, show_year: bool) -> (r: Vec<String>)
    requires
        1 <= year <= 9999,
        forall|j: int| 0 <= j < months@.len() ==> 1 <= #[trigger] months@[j] <= 12,
    ensures
        r.deep_view() == spec_page(year as int, months@, lang, show_year),
{
    let ghost f = |m: u32| spec_month_lines(year as int, m as int, lang, show_year);
    let mut rendered: Vec<Vec<String>> = Vec::new();
    let mut i: usize = 0;
    proof {
        assert(rendered.deep_view() =~= months@.subrange(0, 0).map_values(f));
    }
    while i < months.len()
        invariant
            i <= months@.len(),
            1 <= year <= 9999,
            forall|j: int| 0 <= j < months@.len() ==> 1 <= #[trigger] months@[j] <= 12,
            f == (|m: u32| spec_month_lines(year as int, m as int, lang, show_year)),
            rendered.deep_view() == months@.subrange(0, i as int).map_values(f),
            forall|j: int| 0 <= j < rendered@.len() ==> (#[trigger] rendered@[j])@.len() == 8,
        decreases months@.len() - i,
    {
        let ghost prev = rendered.deep_view();
        let month_lines = format_month(year, months[i], lang, show_year);
        rendered.push(month_lines);
        proof {
            assert(rendered.deep_view() =~= prev.push(f(months@[i as int])));
            assert(months@.subrange(0, i + 1) =~= months@.subrange(0, i as int).push(
                months@[i as int],
            ));
        }
        i += 1;
    }
    proof {
        assert(months@.subrange(0, months@.len() as int) =~= months@);
    }
    compose_months(year, &rendered, show_year)
}

} // verus!
