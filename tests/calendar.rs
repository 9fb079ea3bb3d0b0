use cashflow::calendar::{
    days_in_month, get_transaction_date_in_month, next_month, CivilDate, MAX_YEAR,
};

fn date(y: i32, m: u32, d: u32) -> CivilDate {
    CivilDate::from_ymd_opt(y, m, d).unwrap()
}

#[test]
fn test_days_in_month() {
    assert_eq!(days_in_month(2025, 1), 31);
    assert_eq!(days_in_month(2025, 2), 28);
    assert_eq!(days_in_month(2024, 2), 29);
    assert_eq!(days_in_month(2025, 4), 30);
}

#[test]
fn test_get_transaction_date_in_month() {
    let base = date(2025, 2, 15);
    assert_eq!(
        get_transaction_date_in_month(base, 14),
        CivilDate::from_ymd_opt(2025, 2, 14)
    );
    assert_eq!(
        get_transaction_date_in_month(base, 31),
        CivilDate::from_ymd_opt(2025, 2, 28)
    );
}

#[test]
fn leap_february_clamps_to_29th() {
    assert_eq!(get_transaction_date_in_month(date(2024, 2, 3), 31), Some(date(2024, 2, 29)));
    assert_eq!(get_transaction_date_in_month(date(2000, 2, 3), 30), Some(date(2000, 2, 29)));
    assert_eq!(get_transaction_date_in_month(date(1900, 2, 3), 30), Some(date(1900, 2, 28)));
}

#[test]
fn day_zero_names_no_day() {
    assert_eq!(get_transaction_date_in_month(date(2025, 3, 3), 0), None);
}

#[test]
fn century_years_follow_the_gregorian_rule() {
    assert_eq!(days_in_month(1900, 2), 28);
    assert_eq!(days_in_month(2000, 2), 29);
    assert_eq!(days_in_month(2025, 12), 31);
    assert_eq!(days_in_month(MAX_YEAR, 12), 31);
}

#[test]
fn from_ymd_rejects_missing_days() {
    assert!(CivilDate::from_ymd_opt(2025, 2, 29).is_none());
    assert!(CivilDate::from_ymd_opt(2025, 13, 1).is_none());
    assert!(CivilDate::from_ymd_opt(2025, 4, 31).is_none());
    assert!(CivilDate::from_ymd_opt(2025, 4, 0).is_none());
    assert!(CivilDate::from_ymd_opt(400000, 1, 1).is_none());
    assert!(CivilDate::from_ymd_opt(2024, 2, 29).is_some());
}

#[test]
fn next_month_keeps_the_day_or_falls_back_to_the_first() {
    assert_eq!(next_month(date(2025, 1, 15)), date(2025, 2, 15));
    assert_eq!(next_month(date(2025, 1, 31)), date(2025, 2, 1));
    assert_eq!(next_month(date(2025, 12, 31)), date(2026, 1, 31));
    assert_eq!(next_month(date(2025, 3, 31)), date(2025, 4, 1));
}

#[test]
fn adding_days_crosses_months_and_years() {
    assert_eq!(date(2022, 2, 20).checked_add_days(9), Some(date(2022, 3, 1)));
    assert_eq!(date(2024, 12, 31).checked_add_days(1), Some(date(2025, 1, 1)));
    assert_eq!(date(2024, 2, 28).checked_add_days(1), Some(date(2024, 2, 29)));
    assert_eq!(date(2025, 5, 5).checked_add_days(0), Some(date(2025, 5, 5)));
    assert_eq!(date(2025, 5, 5).checked_add_days(1_000_000_000_000), None);
}

#[test]
fn dates_order_by_year_month_day() {
    assert!(date(2024, 12, 31).is_before(&date(2025, 1, 1)));
    assert!(date(2025, 1, 2).is_before(&date(2025, 2, 1)));
    assert!(!date(2025, 2, 1).is_before(&date(2025, 2, 1)));
}
