//! Locale tables: month names, traditional Japanese lunar month names, and
//! weekday names.

use vstd::prelude::*;

verus! {

/// Display language of headers and weekday rows.
#[derive(Clone, Copy, Debug, PartialEq, Eq, Structural)]
pub enum Lang {
    Japanese,
    English,
}

pub open spec fn spec_month_name_en(m: int) -> Seq<char> {
    if m == 1 {
        "January"@
    } else if m == 2 {
        "February"@
    } else if m == 3 {
        "March"@
    } else if m == 4 {
        "April"@
    } else if m == 5 {
        "May"@
    } else if m == 6 {
        "June"@
    } else if m == 7 {
        "July"@
    } else if m == 8 {
        "August"@
    } else if m == 9 {
        "September"@
    } else if m == 10 {
        "October"@
    } else if m == 11 {
        "November"@
    } else {
        "December"@
    }
}

/// English month name.
pub fn month_name_en(month: u32) -> (r: &'static str)
    requires
        1 <= month <= 12,
    ensures
        r@ == spec_month_name_en(month as int),
{
    match month {
        1 => "January",
        2 => "February",
        3 => "March",
        4 => "April",
        5 => "May",
        6 => "June",
        7 => "July",
        8 => "August",
        9 => "September",
        10 => "October",
        11 => "November",
        _ => "December",
    }
}

pub open spec fn spec_lunar_month_name(m: int) -> Seq<char> {
    if m == 1 {
        "睦月"@
    } else if m == 2 {
        "如月"@
    } else if m == 3 {
        "弥生"@
    } else if m == 4 {
        "卯月"@
    } else if m == 5 {
        "皐月"@
    } else if m == 6 {
        "水無月"@
    } else if m == 7 {
        "文月"@
    } else if m == 8 {
        "葉月"@
    } else if m == 9 {
        "長月"@
    } else if m == 10 {
        "神無月"@
    } else if m == 11 {
        "霜月"@
    } else {
        "師走"@
    }
}

/// Traditional Japanese lunar name of a calendar month.
pub fn lunar_month_name(month: u32) -> (r: &'static str)
    requires
        1 <= month <= 12,
    ensures
        r@ == spec_lunar_month_name(month as int),
{
    match month {
        1 => "睦月",
        2 => "如月",
        3 => "弥生",
        4 => "卯月",
        5 => "皐月",
        6 => "水無月",
        7 => "文月",
        8 => "葉月",
        9 => "長月",
        10 => "神無月",
        11 => "霜月",
        _ => "師走",
    }
}

pub open spec fn spec_week_name(lang: Lang, i: int) -> Seq<char> {
    match lang {
        Lang::Japanese => {
            if i == 0 {
                "日"@
            } else if i == 1 {
                "月"@
            } else if i == 2 {
                "火"@
            } else if i == 3 {
                "水"@
            } else if i == 4 {
                "木"@
            } else if i == 5 {
                "金"@
            } else {
                "土"@
            }
        },
        Lang::English => {
            if i == 0 {
                "Su"@
            } else if i == 1 {
                "Mo"@
            } else if i == 2 {
                "Tu"@
            } else if i == 3 {
                "We"@
            } else if i == 4 {
                "Th"@
            } else if i == 5 {
                "Fr"@
            } else {
                "Sa"@
            }
        },
    }
}

/// Weekday name, Sunday first.
pub fn week_name(lang: Lang, i: u32) -> (r: &'static str)
    requires
        i < 7,
    ensures
        r@ == spec_week_name(lang, i as int),
{
    match lang {
        Lang::Japanese => match i {
            0 => "日",
            1 => "月",
            2 => "火",
            3 => "水",
            4 => "木",
            5 => "金",
            _ => "土",
        },
        Lang::English => match i {
            0 => "Su",
            1 => "Mo",
            2 => "Tu",
            3 => "We",
            4 => "Th",
            5 => "Fr",
            _ => "Sa",
        },
    }
}

} // verus!
