use exercises::calc_time::{
    day_of_week, day_of_year, days_between, days_until_market_opening, is_leap_year, time_info,
};
use exercises::retirement::retire_time;

#[test]
fn test_time_info_regular_day() {
    assert_eq!(time_info("2024-01-09"), "2,2,9,357,31,0");
}

#[test]
fn test_time_info_labor_day() {
    assert_eq!(time_info("2025-05-01"), "18,4,121,244,0,0");
}

#[test]
fn test_leap_years() {
    assert!(is_leap_year(2024));
    assert!(!is_leap_year(2023));
    assert!(!is_leap_year(1900));
    assert!(is_leap_year(2000));
}

#[test]
fn test_day_of_year_boundaries() {
    assert_eq!(day_of_year(2024, 1, 1), 1);
    assert_eq!(day_of_year(2024, 3, 1), 61);
    assert_eq!(day_of_year(2023, 3, 1), 60);
    assert_eq!(day_of_year(2024, 12, 31), 366);
}

#[test]
fn test_day_of_week_known_dates() {
    // 2024-01-01 was a Monday; the folding maps it to one.
    assert_eq!(day_of_week(2024, 1, 1), 1);
    // 2023-01-01 was a Sunday; the folding maps it to zero.
    assert_eq!(day_of_week(2023, 1, 1), 0);
}

#[test]
fn test_days_between_excludes_start() {
    assert_eq!(days_between(2024, 1, 1, 2024, 1, 2), 0);
    assert_eq!(days_between(2024, 1, 1, 2024, 1, 10), 8);
    assert_eq!(days_between(2024, 1, 10, 2024, 1, 1), 0);
}

#[test]
fn test_days_until_market_opening_weekend() {
    // 2024-01-05 was a Friday, 2024-01-06 a Saturday, 2024-01-07 a Sunday.
    assert_eq!(days_until_market_opening(2024, 1, 5), 2);
    assert_eq!(days_until_market_opening(2024, 1, 6), 1);
    assert_eq!(days_until_market_opening(2024, 1, 7), 0);
    assert_eq!(days_until_market_opening(2024, 1, 8), 0);
}

#[test]
fn test_retire_time_male_worker() {
    assert_eq!(retire_time("1971-05", "男职工"), "2032-02, 60.75, 9");
}

#[test]
fn test_retire_time_female_worker_fifty() {
    assert_eq!(
        retire_time("1995-12", "原法定退休年龄50周岁女职工"),
        "2048-06, 52.50, 30"
    );
}

#[test]
fn test_retire_time_before_policy() {
    assert_eq!(retire_time("1960-07", "男职工"), "2020-07, 60.00, 0");
}
