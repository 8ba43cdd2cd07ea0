use calp::holiday::{build_holiday_info, parse_holiday_line, HolidayInfo};

#[test]
fn duplicate_dates_are_recorded_once_and_queries_are_total() {
    let mut info = HolidayInfo::new();
    info.add(2024, 1, 1);
    info.add(2024, 1, 1);
    assert!(info.is_holiday(2024, 1, 1));
    assert!(!info.is_holiday(2024, 1, 2));
    // A year and month never inserted answer false without erroring.
    assert!(!info.is_holiday(1999, 7, 20));
    assert!(!info.is_holiday(-5, 3, 3));
}

#[test]
fn build_from_text_skips_malformed_lines() {
    let text = "2024/01/01,New Year\n2024/01/01,New Year again\nnot a date,x\n2024/02/30,impossible\n2024/03/20\n2024/02/11,Foundation Day\n";
    let info = build_holiday_info(text);
    assert!(info.is_holiday(2024, 1, 1));
    assert!(info.is_holiday(2024, 2, 11));
    // An impossible calendar day is skipped.
    assert!(!info.is_holiday(2024, 2, 30));
    // A line without a comma holds no date.
    assert!(!info.is_holiday(2024, 3, 20));
}

#[test]
fn parse_holiday_line_reads_the_leading_field() {
    assert_eq!(parse_holiday_line("2024/1/1,x"), Some((2024, 1, 1)));
    assert_eq!(parse_holiday_line("2024/02/29,leap"), Some((2024, 2, 29)));
    assert_eq!(parse_holiday_line("2023/02/29,no leap"), None);
    assert_eq!(parse_holiday_line("2024/13/01,x"), None);
    assert_eq!(parse_holiday_line("2024/01/00,x"), None);
    assert_eq!(parse_holiday_line("2024-01-01,x"), None);
    assert_eq!(parse_holiday_line(""), None);
    assert_eq!(parse_holiday_line("2024/01/01"), None);
}

#[test]
fn carriage_returns_do_not_hide_dates() {
    let info = build_holiday_info("2024/05/03,holiday\r\n2024/05/04,holiday\r\n");
    assert!(info.is_holiday(2024, 5, 3));
    assert!(info.is_holiday(2024, 5, 4));
    assert!(!info.is_holiday(2024, 5, 5));
}
