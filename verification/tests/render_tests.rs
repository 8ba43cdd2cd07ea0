use calp::compose::compose_months;
use calp::consts::Lang;
use calp::holiday::HolidayInfo;
use calp::render::{
    day_cell_text, day_style, format_days, format_header_en, format_header_jp, format_month,
    format_week_row, is_same_day, num_string, DayStyle,
};
use calp::{render_months, select_months, Config};

#[test]
fn english_end_to_end_for_january_2024() {
    let months = vec![1u32];
    let lines = render_months(2024, &months, Lang::English, true);
    assert_eq!(lines.len(), 8);
    assert!(lines[0].contains("January 2024"));
    assert_eq!(lines[1], "Su Mo Tu We Th Fr Sa  ");
    // 2024-01-01 is a Monday: one blank slot, then " 1".
    assert!(lines[2].starts_with("    1"));
    assert_eq!(lines[2], "    1  2  3  4  5  6  ");
    assert_eq!(lines[3], " 7  8  9 10 11 12 13  ");
}

#[test]
fn header_formatting() {
    assert_eq!(format_header_en(2024, 1, true), "    January 2024      ");
    assert_eq!(format_header_en(2024, 1, false), "      January         ");
    assert_eq!(format_header_jp(2024, 1, false), "     1月(睦月)        ");
    assert_eq!(format_header_jp(2024, 12, true), "  12月(師走) 2024     ");
}

#[test]
fn week_rows_by_locale() {
    assert_eq!(format_week_row(Lang::English), "Su Mo Tu We Th Fr Sa  ");
    assert_eq!(format_week_row(Lang::Japanese), "日 月 火 水 木 金 土  ");
}

#[test]
fn day_cells_are_two_characters() {
    assert_eq!(day_cell_text(0), "  ");
    assert_eq!(day_cell_text(1), " 1");
    assert_eq!(day_cell_text(9), " 9");
    assert_eq!(day_cell_text(10), "10");
    assert_eq!(day_cell_text(31), "31");
    assert_eq!(num_string(2024), "2024");
    assert_eq!(num_string(0), "0");
}

#[test]
fn composer_is_pure_and_separates_chunks() {
    let months: Vec<u32> = (1..=12).collect();
    let rendered: Vec<Vec<String>> = months
        .iter()
        .map(|m| format_month(2024, *m, Lang::English, false))
        .collect();
    let once = compose_months(2024, &rendered, false);
    let twice = compose_months(2024, &rendered, false);
    assert_eq!(once, twice);
    // Banner, then four rows of three months (8 lines each) with blank
    // separators between rows.
    assert_eq!(once.len(), 1 + 4 * 8 + 3);
    assert_eq!(once[0], format!("{:^60}", 2024));
    assert_eq!(once[9], "");
    // A chunk line is the concatenation of the three months' lines.
    assert_eq!(once[1].len(), rendered[0][0].len() * 3);
}

#[test]
fn two_month_pages_use_the_narrow_banner() {
    let months = vec![4u32, 5];
    let lines = render_months(2024, &months, Lang::English, false);
    assert_eq!(lines[0], format!("{:^40}", 2024));
    assert_eq!(lines.len(), 1 + 8);
}

#[test]
fn style_policy() {
    let mut info = HolidayInfo::new();
    info.add(2024, 1, 8);
    // First column is always holiday-styled.
    assert_eq!(day_style(0, 2024, 1, 7, &info), DayStyle::Holiday);
    // A recorded holiday outranks the weekend column.
    assert_eq!(day_style(1, 2024, 1, 8, &info), DayStyle::Holiday);
    assert_eq!(day_style(6, 2024, 1, 6, &info), DayStyle::Weekend);
    assert_eq!(day_style(3, 2024, 1, 10, &info), DayStyle::Plain);
    assert!(is_same_day(2024, 1, 8, 2024, 1, 8));
    assert!(!is_same_day(2024, 1, 8, 2024, 1, 9));
}

#[test]
fn selection_resolves_against_today() {
    // A year without months means the whole year.
    let cfg = Config { months: None, year: Some(2025), cur_year: false, lang: Lang::English };
    let (y, months, show_year) = select_months(cfg, 2024, 3);
    assert_eq!(y, 2025);
    assert_eq!(months, (1..=12).collect::<Vec<u32>>());
    assert!(!show_year);

    // Nothing selected means the current month alone.
    let cfg = Config { months: None, year: None, cur_year: false, lang: Lang::Japanese };
    let (y, months, show_year) = select_months(cfg, 2024, 3);
    assert_eq!(y, 2024);
    assert_eq!(months, vec![3]);
    assert!(show_year);

    // Selected months of the current year.
    let cfg = Config {
        months: Some(vec![2, 3, 5]),
        year: None,
        cur_year: false,
        lang: Lang::English,
    };
    let (y, months, show_year) = select_months(cfg, 2024, 7);
    assert_eq!(y, 2024);
    assert_eq!(months, vec![2, 3, 5]);
    assert!(!show_year);

    // The whole-year flag wins.
    let cfg = Config { months: None, year: None, cur_year: true, lang: Lang::English };
    let (_, months, show_year) = select_months(cfg, 2024, 7);
    assert_eq!(months.len(), 12);
    assert!(!show_year);
}

#[test]
fn format_days_rows_match_the_grid() {
    let rows = format_days(2024, 6);
    assert_eq!(rows.len(), 6);
    // June 2024 starts on Saturday: six blanks, then " 1".
    assert_eq!(rows[0], "                   1  ");
    assert_eq!(rows[1], " 2  3  4  5  6  7  8  ");
    assert_eq!(rows[5], "30                    ");
}
