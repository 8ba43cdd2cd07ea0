use calp::months_parser::{extract_month, parse_months, sort_month_range_list, MonthsError};

#[test]
fn single_months_parse_to_themselves() {
    for m in 1u32..=12 {
        let spec = format!("{m}");
        assert_eq!(parse_months(&spec), Ok(vec![m]));
    }
}

#[test]
fn ranges_parse_to_inclusive_runs() {
    assert_eq!(parse_months("3-7"), Ok(vec![3, 4, 5, 6, 7]));
    assert_eq!(parse_months("1-12"), Ok((1u32..=12).collect::<Vec<_>>()));
    assert_eq!(parse_months("11-12"), Ok(vec![11, 12]));
    for s in 1u32..=11 {
        for e in (s + 1)..=12 {
            let spec = format!("{s}-{e}");
            assert_eq!(parse_months(&spec), Ok((s..=e).collect::<Vec<_>>()));
        }
    }
}

#[test]
fn overlapping_ranges_collapse() {
    assert_eq!(parse_months("1-5,3-7"), Ok(vec![1, 2, 3, 4, 5, 6, 7]));
    assert_eq!(parse_months("1-5,3-4"), Ok(vec![1, 2, 3, 4, 5]));
    assert_eq!(parse_months("1-5,4-10"), Ok((1u32..=10).collect::<Vec<_>>()));
}

#[test]
fn segment_order_does_not_matter() {
    assert_eq!(parse_months("5,1-3"), parse_months("1-3,5"));
    assert_eq!(parse_months("5,1-3"), Ok(vec![1, 2, 3, 5]));
    assert_eq!(parse_months("12,1,6"), parse_months("1,6,12"));
}

#[test]
fn invalid_inputs_fail_with_distinct_errors() {
    assert_eq!(parse_months("0"), Err(MonthsError::InvalidMonth(0)));
    assert_eq!(parse_months("13"), Err(MonthsError::InvalidMonth(13)));
    assert_eq!(parse_months("5-3"), Err(MonthsError::RangeOrder(5, 3)));
    assert_eq!(
        parse_months("abc"),
        Err(MonthsError::InvalidFormat(String::from("abc")))
    );
}

#[test]
fn first_failing_segment_decides_the_error() {
    assert_eq!(parse_months("1,0,abc"), Err(MonthsError::InvalidMonth(0)));
    assert_eq!(
        parse_months("1,,3"),
        Err(MonthsError::InvalidFormat(String::from("")))
    );
    assert_eq!(parse_months(""), Err(MonthsError::InvalidFormat(String::from(""))));
    assert_eq!(
        parse_months("1, 2"),
        Err(MonthsError::InvalidFormat(String::from(" 2")))
    );
    assert_eq!(parse_months("3-14"), Err(MonthsError::InvalidMonth(14)));
    assert_eq!(parse_months("4-4"), Err(MonthsError::RangeOrder(4, 4)));
    assert_eq!(
        parse_months("1-2-3"),
        Err(MonthsError::InvalidFormat(String::from("1-2-3")))
    );
}

#[test]
fn leading_zeros_are_part_of_the_number_not_the_format() {
    assert_eq!(parse_months("007"), Ok(vec![7]));
    assert_eq!(parse_months("013"), Err(MonthsError::InvalidMonth(13)));
}

#[test]
fn sort_orders_by_start_then_end() {
    let l = vec![(4u32, 10u32), (0, 3), (4, 5), (0, 1)];
    assert_eq!(sort_month_range_list(&l), vec![(0, 1), (0, 3), (4, 5), (4, 10)]);
}

#[test]
fn extract_month_clips_against_offset_and_length() {
    let arr: Vec<u32> = (1..=12).collect();
    assert_eq!(extract_month(&arr, 0, (0, 5)), (5, vec![1, 2, 3, 4, 5]));
    assert_eq!(extract_month(&arr, 5, (2, 7)), (7, vec![6, 7]));
    // A range swallowed by the offset contributes nothing and does not
    // move the offset back.
    assert_eq!(extract_month(&arr, 7, (2, 4)), (7, vec![]));
    assert_eq!(extract_month(&arr, 0, (10, 14)), (12, vec![11, 12]));
}

#[test]
fn error_messages_name_the_offending_input() {
    assert_eq!(
        parse_months("abc").unwrap_err().message(),
        "illegal list value: \"abc\""
    );
    assert_eq!(parse_months("13").unwrap_err().message(), "invalid month: \"13\"");
    assert_eq!(
        parse_months("5-3").unwrap_err().message(),
        "First month in range (5) must be lower than second month (3)"
    );
}

#[test]
fn clipping_follows_the_running_offset() {
    // Ranges swallowed by an earlier, wider range contribute nothing and
    // never pull the offset back, so no month is re-emitted.
    assert_eq!(
        parse_months("2-11,3-4,3-5"),
        Ok(vec![2, 3, 4, 5, 6, 7, 8, 9, 10, 11])
    );
    assert_eq!(parse_months("1-5,2,3-4"), Ok(vec![1, 2, 3, 4, 5]));
    assert_eq!(parse_months("1-12,2-3,4-10"), Ok((1u32..=12).collect::<Vec<_>>()));
}

#[test]
fn large_numbers_are_invalid_months_until_they_overflow_the_word() {
    assert_eq!(
        parse_months("99999999999"),
        Err(MonthsError::InvalidMonth(99999999999))
    );
    assert_eq!(
        parse_months("99999999999").unwrap_err().message(),
        "invalid month: \"99999999999\""
    );
    assert_eq!(
        parse_months("99999999999999999999999"),
        Err(MonthsError::InvalidFormat(String::from("99999999999999999999999")))
    );
}
