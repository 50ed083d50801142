use gantt_purely_rust::calendar::{leap_year, month_length, Date, MAX_YEAR, MIN_YEAR};

#[test]
fn test_from_ymd_opt_accepts_dates_that_exist() {
    let date = Date::from_ymd_opt(2015, 3, 14).unwrap();
    assert_eq!(date.year(), 2015);
    assert_eq!(date.month(), 3);
    assert_eq!(date.day(), 14);
    assert!(Date::from_ymd_opt(2024, 2, 29).is_some());
    assert!(Date::from_ymd_opt(-4, 2, 29).is_some());
    assert!(Date::from_ymd_opt(2000, 2, 29).is_some());
    assert!(Date::from_ymd_opt(MIN_YEAR, 1, 1).is_some());
    assert!(Date::from_ymd_opt(MAX_YEAR, 12, 31).is_some());
}

#[test]
fn test_from_ymd_opt_rejects_dates_that_do_not_exist() {
    assert!(Date::from_ymd_opt(2015, 0, 14).is_none());
    assert!(Date::from_ymd_opt(2015, 13, 1).is_none());
    assert!(Date::from_ymd_opt(2015, 1, 0).is_none());
    assert!(Date::from_ymd_opt(2015, 1, 32).is_none());
    assert!(Date::from_ymd_opt(2015, 2, 29).is_none());
    assert!(Date::from_ymd_opt(2100, 2, 29).is_none());
    assert!(Date::from_ymd_opt(2023, 4, 31).is_none());
    assert!(Date::from_ymd_opt(400000, 1, 1).is_none());
    assert!(Date::from_ymd_opt(-400000, 1, 1).is_none());
    assert!(Date::from_ymd_opt(MAX_YEAR + 1, 1, 1).is_none());
    assert!(Date::from_ymd_opt(MIN_YEAR - 1, 12, 31).is_none());
}

#[test]
fn test_from_ymd_opt_agrees_with_chrono() {
    for year in [-262144, -262143, -401, -400, -1, 0, 1, 1900, 2000, 2023, 2024, 262142, 262143] {
        for month in 0..=13u32 {
            for day in 0..=32u32 {
                assert_eq!(
                    Date::from_ymd_opt(year, month, day).is_some(),
                    chrono::NaiveDate::from_ymd_opt(year, month, day).is_some(),
                    "{}-{}-{}",
                    year,
                    month,
                    day
                );
            }
        }
    }
}

#[test]
fn test_leap_year() {
    assert!(leap_year(2024));
    assert!(leap_year(2000));
    assert!(leap_year(0));
    assert!(leap_year(-4));
    assert!(leap_year(-400));
    assert!(!leap_year(2023));
    assert!(!leap_year(2100));
    assert!(!leap_year(-1));
    assert!(!leap_year(-100));
}

#[test]
fn test_month_length() {
    let lengths: Vec<u32> = (1..=12).map(|month| month_length(2023, month)).collect();
    assert_eq!(lengths, vec![31, 28, 31, 30, 31, 30, 31, 31, 30, 31, 30, 31]);
    assert_eq!(month_length(2024, 2), 29);
    assert_eq!(month_length(1900, 2), 28);
}

#[test]
fn test_is_on_or_before() {
    let a = Date::from_ymd_opt(2025, 1, 31).unwrap();
    let b = Date::from_ymd_opt(2025, 2, 1).unwrap();
    let c = Date::from_ymd_opt(2024, 12, 31).unwrap();
    assert!(a.is_on_or_before(&b));
    assert!(!b.is_on_or_before(&a));
    assert!(a.is_on_or_before(&a));
    assert!(c.is_on_or_before(&a));
    assert!(!a.is_on_or_before(&c));
    assert_eq!(a, Date::from_ymd_opt(2025, 1, 31).unwrap());
    assert_ne!(a, b);
}
