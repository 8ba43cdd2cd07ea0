use calp::calendar::{days_in_month, is_leap_year, preformat_days, weekday};

#[test]
fn test_preformat_days() {
    // start Su
    let res = preformat_days(2024, 12);
    let mut cmp = vec![];
    cmp.extend((1..=31).collect::<Vec<_>>());
    cmp.extend(vec![0; 4 + 7]);
    assert_eq!(res, cmp);

    // start Mo
    let res = preformat_days(2024, 7);
    let mut cmp = vec![0; 1];
    cmp.extend((1..=31).collect::<Vec<_>>());
    cmp.extend(vec![0; 3 + 7]);
    assert_eq!(res, cmp);

    // start Tu
    let res = preformat_days(2024, 10);
    let mut cmp = vec![0; 2];
    cmp.extend((1..=31).collect::<Vec<_>>());
    cmp.extend(vec![0; 2 + 7]);
    assert_eq!(res, cmp);

    // start We
    let res = preformat_days(2024, 5);
    let mut cmp = vec![0; 3];
    cmp.extend((1..=31).collect::<Vec<_>>());
    cmp.extend(vec![0; 1 + 7]);
    assert_eq!(res, cmp);

    // start Th
    let res = preformat_days(2024, 8);
    let mut cmp = vec![0; 4];
    cmp.extend((1..=31).collect::<Vec<_>>());
    cmp.extend(vec![0; 7]);
    assert_eq!(res, cmp);

    // start Fr
    let res = preformat_days(2024, 3);
    let mut cmp = vec![0; 5];
    cmp.extend((1..=31).collect::<Vec<_>>());
    cmp.extend(vec![0; 6]);
    assert_eq!(res, cmp);

    // start Sa
    let res = preformat_days(2024, 6);
    let mut cmp = vec![0; 6];
    cmp.extend((1..=30).collect::<Vec<_>>());
    cmp.extend(vec![0; 6]);
    assert_eq!(res, cmp);
}

#[test]
fn grid_is_42_cells_with_days_contiguous() {
    let res = preformat_days(2024, 12);
    assert_eq!(res.len(), 42);
    for (i, d) in res.iter().enumerate() {
        if i < 31 {
            assert_eq!(*d, (i + 1) as u32);
        } else {
            assert_eq!(*d, 0);
        }
    }
}

#[test]
fn leap_year_rules() {
    assert!(is_leap_year(2024));
    assert!(!is_leap_year(2023));
    assert!(is_leap_year(2000));
    assert!(!is_leap_year(1900));
    assert_eq!(days_in_month(2024, 2), 29);
    assert_eq!(days_in_month(2023, 2), 28);
    assert_eq!(days_in_month(2000, 2), 29);
    assert_eq!(days_in_month(1900, 2), 28);
    assert_eq!(days_in_month(2024, 4), 30);
    assert_eq!(days_in_month(2024, 1), 31);
}

#[test]
fn weekdays_of_known_dates() {
    // Sunday = 0.
    assert_eq!(weekday(2024, 12, 1), 0);
    assert_eq!(weekday(2024, 1, 1), 1);
    assert_eq!(weekday(2024, 6, 1), 6);
    assert_eq!(weekday(2000, 1, 1), 6);
    assert_eq!(weekday(1, 1, 1), 1);
    assert_eq!(weekday(9999, 12, 31), 5);
}
