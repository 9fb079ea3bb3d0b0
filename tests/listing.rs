use cashflow::amount::Amount;
use cashflow::calendar::CivilDate;
use cashflow::listing::{one_time_listing, recurring_listing};
use cashflow::models::{OneTimeTransaction, RecurringTransaction};

fn date(y: i32, m: u32, d: u32) -> CivilDate {
    CivilDate::from_ymd_opt(y, m, d).unwrap()
}

#[test]
fn one_time_entries_are_listed_by_date() {
    let entries = vec![
        OneTimeTransaction::new("c".to_string(), Amount::from_units(1), date(2025, 3, 1)),
        OneTimeTransaction::new("a".to_string(), Amount::from_units(1), date(2024, 12, 31)),
        OneTimeTransaction::new("b".to_string(), Amount::from_units(1), date(2025, 3, 1)),
        OneTimeTransaction::new("d".to_string(), Amount::from_units(1), date(2025, 1, 15)),
    ];
    assert_eq!(one_time_listing(&entries, false, date(2025, 1, 1)), vec![1, 3, 0, 2]);
    assert_eq!(one_time_listing(&entries, true, date(2025, 1, 15)), vec![3, 0, 2]);
    assert_eq!(one_time_listing(&entries, true, date(2026, 1, 1)), Vec::<usize>::new());
}

#[test]
fn rules_are_listed_by_day_of_month() {
    let rules = vec![
        RecurringTransaction::new("x".to_string(), Amount::from_units(1), 20),
        RecurringTransaction::new("y".to_string(), Amount::from_units(1), 1),
        RecurringTransaction::new("z".to_string(), Amount::from_units(1), 20),
        RecurringTransaction::new("w".to_string(), Amount::from_units(1), 5),
    ];
    assert_eq!(recurring_listing(&rules), vec![1, 3, 0, 2]);
}
