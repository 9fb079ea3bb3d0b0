use cashflow::amount::Amount;
use cashflow::calendar::CivilDate;
use cashflow::ledger::{
    edit_one_time, edit_recurring, find_recurring, remove_one_time, remove_recurring,
    set_balance, set_recurring_active, validate_day, LedgerError,
};
use cashflow::models::{CashflowData, OneTimeTransaction, RecurringTransaction};

fn date(y: i32, m: u32, d: u32) -> CivilDate {
    CivilDate::from_ymd_opt(y, m, d).unwrap()
}

fn ledger() -> CashflowData {
    let mut data = CashflowData::default();
    let mut a = RecurringTransaction::new("Rent".to_string(), Amount::from_units(-900), 1);
    a.id = 11;
    let mut b = RecurringTransaction::new("Phone".to_string(), Amount::from_units(-20), 15);
    b.id = 12;
    data.recurring.push(a);
    data.recurring.push(b);
    let mut e = OneTimeTransaction::new("Gift".to_string(), Amount::from_units(50), date(2025, 5, 5));
    e.id = 21;
    data.one_time.push(e);
    data
}

#[test]
fn days_outside_the_month_range_are_refused() {
    assert_eq!(validate_day(0), Err(LedgerError::InvalidDay));
    assert_eq!(validate_day(1), Ok(1));
    assert_eq!(validate_day(31), Ok(31));
    assert_eq!(validate_day(32), Err(LedgerError::InvalidDay));
}

#[test]
fn setting_a_balance_updates_or_adds_a_snapshot() {
    let mut data = ledger();
    assert!(!set_balance(&mut data, date(2025, 1, 1), Amount::from_units(10)));
    assert!(!set_balance(&mut data, date(2025, 2, 1), Amount::from_units(20)));
    assert!(set_balance(&mut data, date(2025, 1, 1), Amount::from_units(30)));
    assert_eq!(data.balance_snapshots.len(), 2);
    assert_eq!(data.balance_snapshots[0].balance, Amount::from_units(30));
    assert_eq!(data.balance_snapshots[1].balance, Amount::from_units(20));
}

#[test]
fn rules_are_found_enabled_and_disabled_by_id() {
    let mut data = ledger();
    assert_eq!(find_recurring(&data.recurring, 12), Some(1));
    assert_eq!(find_recurring(&data.recurring, 99), None);
    assert_eq!(set_recurring_active(&mut data, 12, false), Ok(1));
    assert!(!data.recurring[1].active);
    assert!(data.recurring[0].active);
    assert_eq!(set_recurring_active(&mut data, 12, true), Ok(1));
    assert!(data.recurring[1].active);
    assert_eq!(set_recurring_active(&mut data, 99, true), Err(LedgerError::NotFound));
}

#[test]
fn deleting_removes_only_the_matching_item() {
    let mut data = ledger();
    let removed = remove_recurring(&mut data, 11).unwrap();
    assert_eq!(removed.description, "Rent");
    assert_eq!(data.recurring.len(), 1);
    assert_eq!(data.recurring[0].id, 12);
    assert_eq!(remove_recurring(&mut data, 11).unwrap_err(), LedgerError::NotFound);
    assert_eq!(remove_one_time(&mut data, 21).unwrap().description, "Gift");
    assert!(data.one_time.is_empty());
}

#[test]
fn editing_changes_only_what_is_given() {
    let mut data = ledger();
    assert_eq!(
        edit_recurring(&mut data, 12, Some(Amount::from_units(-25)), None, Some("Mobile".to_string())),
        Ok(1)
    );
    assert_eq!(data.recurring[1].amount, Amount::from_units(-25));
    assert_eq!(data.recurring[1].day_of_month, 15);
    assert_eq!(data.recurring[1].description, "Mobile");
    assert_eq!(edit_recurring(&mut data, 12, None, Some(40), None), Err(LedgerError::InvalidDay));
    assert_eq!(data.recurring[1].day_of_month, 15);
    assert_eq!(edit_recurring(&mut data, 77, None, Some(40), None), Err(LedgerError::NotFound));
    assert_eq!(edit_one_time(&mut data, 21, None, Some(date(2025, 6, 6)), None), Ok(0));
    assert_eq!(data.one_time[0].date, date(2025, 6, 6));
    assert_eq!(data.one_time[0].amount, Amount::from_units(50));
    assert_eq!(edit_one_time(&mut data, 5, None, None, None), Err(LedgerError::NotFound));
}

#[test]
fn new_items_get_distinct_identifiers() {
    let a = RecurringTransaction::new("A".to_string(), Amount::from_units(1), 3);
    let b = RecurringTransaction::new("A".to_string(), Amount::from_units(1), 3);
    assert_ne!(a.id, b.id);
    assert!(a.active);
    assert_eq!(a.day_of_month, 3);
}
