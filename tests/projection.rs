use cashflow::amount::Amount;
use cashflow::calendar::CivilDate;
use cashflow::models::{
    BalanceSnapshot, CashflowData, OneTimeTransaction, RecurringTransaction, Timestamp,
};
use cashflow::projection::{
    find_latest_balance_snapshot, generate_recurring_transactions, ledger_is_valid,
    project_cashflow, ProjectionError,
};
use chrono::Datelike;
use rust_decimal::Decimal;
use std::str::FromStr;

fn amount(s: &str) -> Amount {
    let d = Decimal::from_str(s).unwrap();
    Amount::from_parts(d.mantissa(), d.scale()).unwrap()
}

fn decimal(a: Amount) -> Decimal {
    Decimal::from_i128_with_scale(a.mantissa, a.scale)
}

fn date(y: i32, m: u32, d: u32) -> CivilDate {
    CivilDate::from_ymd_opt(y, m, d).unwrap()
}

fn civil(d: chrono::NaiveDate) -> CivilDate {
    date(d.year(), d.month(), d.day())
}

fn at(seconds: i64) -> Timestamp {
    Timestamp { seconds, nanos: 0 }
}

fn rule(id: u128, description: &str, value: &str, day: u8, created: i64) -> RecurringTransaction {
    RecurringTransaction {
        id,
        description: description.to_string(),
        amount: amount(value),
        day_of_month: day,
        active: true,
        created_at: at(created),
    }
}

fn entry(id: u128, description: &str, value: &str, on: CivilDate, created: i64) -> OneTimeTransaction {
    OneTimeTransaction {
        id,
        description: description.to_string(),
        amount: amount(value),
        date: on,
        created_at: at(created),
    }
}

fn snapshot(on: CivilDate, value: &str) -> BalanceSnapshot {
    BalanceSnapshot { id: 900, date: on, balance: amount(value), created_at: at(0) }
}

#[test]
fn test_projection_with_recurring() {
    let mut data = CashflowData::default();
    let today = date(2025, 11, 14);
    let yesterday = date(2025, 11, 13);
    data.balance_snapshots.push(BalanceSnapshot::new(yesterday, amount("22158")));
    data.recurring.push(RecurringTransaction::new(
        "Netflix".to_string(),
        amount("-478"),
        today.day as u8,
    ));

    let (_starting_balance, projection_date, projected) = project_cashflow(&data, today, 30).unwrap();

    assert_eq!(projection_date, today);
    assert!(!projected.is_empty());
    let netflix = projected.iter().find(|p| p.description == "Netflix");
    assert!(netflix.is_some());
    let netflix = netflix.unwrap();
    assert_eq!(netflix.date.day, today.day);
    assert_eq!(netflix.amount, amount("-478"));
}

#[test]
fn test_projection_with_duplicate_descriptions() {
    let mut data = CashflowData::default();
    let now = chrono::Local::now().date_naive();
    let today = civil(now);
    let week_ago = civil(now - chrono::Duration::days(7));
    data.balance_snapshots.push(BalanceSnapshot::new(week_ago, amount("10000")));
    data.recurring.push(RecurringTransaction::new("Služby".to_string(), amount("-2500"), 1));
    data.recurring.push(RecurringTransaction::new("Služby".to_string(), amount("-2940"), 20));

    let (_starting_balance, projection_date, projected) = project_cashflow(&data, today, 60).unwrap();

    assert_eq!(projection_date, today);
    let sluzby: Vec<_> = projected.iter().filter(|p| p.description == "Služby").collect();
    assert!(sluzby.len() >= 2, "Should have at least 2 Služby transactions");
    assert!(
        sluzby.iter().any(|p| p.day_of_month == 1 && p.amount == amount("-2500")),
        "Should have Služby transaction on day 1 with amount -2500"
    );
    assert!(
        sluzby.iter().any(|p| p.day_of_month == 20 && p.amount == amount("-2940")),
        "Should have Služby transaction on day 20 with amount -2940"
    );
}

#[test]
fn anchor_day_rule_is_folded_into_the_starting_balance() {
    let mut data = CashflowData::default();
    let today = date(2025, 11, 14);
    data.balance_snapshots.push(snapshot(date(2025, 11, 13), "22158"));
    data.recurring.push(rule(1, "Netflix", "-478", 14, 10));
    let (start, _, rows) = project_cashflow(&data, today, 30).unwrap();
    assert_eq!(start, amount("21680"));
    assert_eq!(rows.len(), 1);
    assert_eq!(rows[0].date, date(2025, 12, 14));
    assert_eq!(rows[0].balance_after, amount("21202"));
    assert!(!rows[0].is_one_time);
}

#[test]
fn anchor_day_entry_is_the_first_row() {
    let mut data = CashflowData::default();
    let today = date(2025, 11, 14);
    data.balance_snapshots.push(snapshot(date(2025, 11, 1), "1000"));
    data.one_time.push(entry(5, "Later", "-1", date(2025, 11, 20), 1));
    data.one_time.push(entry(6, "Transfer", "250", today, 2));
    data.one_time.push(entry(7, "Earlier", "-100", date(2025, 11, 5), 3));
    let (start, _, rows) = project_cashflow(&data, today, 30).unwrap();
    assert_eq!(start, amount("900"));
    assert_eq!(rows.len(), 2);
    assert_eq!(rows[0].description, "Transfer");
    assert!(rows[0].is_one_time);
    assert_eq!(rows[0].balance_after, amount("1150"));
    assert_eq!(rows[1].balance_after, amount("1149"));
}

#[test]
fn utilities_rules_are_told_apart() {
    let mut data = CashflowData::default();
    let today = date(2025, 11, 14);
    data.balance_snapshots.push(snapshot(date(2025, 11, 7), "10000"));
    data.recurring.push(rule(1, "Utilities", "-2500", 1, 10));
    data.recurring.push(rule(2, "Utilities", "-2940", 20, 11));
    let (start, _, rows) = project_cashflow(&data, today, 60).unwrap();
    assert_eq!(start, amount("10000"));
    let got: Vec<(CivilDate, u8, Amount, Amount)> =
        rows.iter().map(|r| (r.date, r.day_of_month, r.amount, r.balance_after)).collect();
    assert_eq!(
        got,
        vec![
            (date(2025, 11, 20), 20, amount("-2940"), amount("7060")),
            (date(2025, 12, 1), 1, amount("-2500"), amount("4560")),
            (date(2025, 12, 20), 20, amount("-2940"), amount("1620")),
            (date(2026, 1, 1), 1, amount("-2500"), amount("-880")),
        ]
    );
}

#[test]
fn last_balance_minus_start_is_the_sum_of_amounts() {
    let mut data = CashflowData::default();
    let today = date(2025, 3, 10);
    data.balance_snapshots.push(snapshot(date(2025, 2, 1), "5000.25"));
    data.recurring.push(rule(1, "Rent", "-1200.10", 5, 1));
    data.recurring.push(rule(2, "Salary", "3000", 25, 2));
    data.one_time.push(entry(3, "Gift", "99.99", date(2025, 4, 2), 3));
    let (start, _, rows) = project_cashflow(&data, today, 90).unwrap();
    let sum: Decimal = rows.iter().map(|r| decimal(r.amount)).sum();
    let last = decimal(rows.last().unwrap().balance_after);
    assert_eq!(last - decimal(start), sum);
    assert_eq!(rows.len(), 7);
}

#[test]
fn rule_for_day_31_lands_on_the_end_of_february() {
    let mut data = CashflowData::default();
    data.balance_snapshots.push(snapshot(date(2025, 2, 10), "0"));
    data.recurring.push(rule(1, "Loan", "-10", 31, 1));
    let (_, _, rows) = project_cashflow(&data, date(2025, 2, 10), 30).unwrap();
    assert_eq!(rows[0].date, date(2025, 2, 28));
    assert_eq!(rows[0].day_of_month, 28);

    let mut data = CashflowData::default();
    data.balance_snapshots.push(snapshot(date(2024, 2, 10), "0"));
    data.recurring.push(rule(1, "Loan", "-10", 31, 1));
    let (_, _, rows) = project_cashflow(&data, date(2024, 2, 10), 30).unwrap();
    assert_eq!(rows[0].date, date(2024, 2, 29));
}

#[test]
fn same_inputs_give_the_same_rows_in_creation_order() {
    let mut data = CashflowData::default();
    let today = date(2025, 6, 1);
    data.balance_snapshots.push(snapshot(today, "100"));
    data.one_time.push(entry(1, "Created second", "-1", date(2025, 6, 10), 20));
    data.recurring.push(rule(2, "Created third", "-2", 10, 30));
    data.one_time.push(entry(3, "Created first", "-3", date(2025, 6, 10), 10));
    let first = project_cashflow(&data, today, 20).unwrap();
    let second = project_cashflow(&data, today, 20).unwrap();
    assert_eq!(first, second);
    let names: Vec<&str> = first.2.iter().map(|r| r.description.as_str()).collect();
    assert_eq!(names, vec!["Created first", "Created second", "Created third"]);
}

#[test]
fn inactive_rule_contributes_nothing() {
    let mut data = CashflowData::default();
    let today = date(2025, 6, 15);
    data.balance_snapshots.push(snapshot(date(2025, 5, 1), "100"));
    data.recurring.push(rule(1, "Gym", "-30", 10, 1));
    let mut paused = rule(2, "Paused", "-999", 12, 2);
    paused.active = false;
    data.recurring.push(paused);
    let with_paused = project_cashflow(&data, today, 60).unwrap();
    data.recurring.pop();
    let without = project_cashflow(&data, today, 60).unwrap();
    assert_eq!(with_paused, without);
    assert_eq!(with_paused.0, amount("40"));
    assert!(with_paused.2.iter().all(|r| r.description == "Gym"));
}

#[test]
fn zero_horizon_on_the_snapshot_date_is_empty() {
    let mut data = CashflowData::default();
    let today = date(2025, 6, 15);
    data.balance_snapshots.push(snapshot(today, "4321"));
    data.recurring.push(rule(1, "Gym", "-30", 15, 1));
    data.one_time.push(entry(2, "Tomorrow", "5", date(2025, 6, 16), 1));
    let (start, d, rows) = project_cashflow(&data, today, 0).unwrap();
    assert_eq!(start, amount("4321"));
    assert_eq!(d, today);
    assert!(rows.is_empty());
}

#[test]
fn no_snapshot_is_an_error() {
    let mut data = CashflowData::default();
    data.recurring.push(rule(1, "Gym", "-30", 15, 1));
    data.one_time.push(entry(2, "Gift", "5", date(2025, 6, 16), 1));
    assert_eq!(
        project_cashflow(&data, date(2025, 6, 1), 30),
        Err(ProjectionError::NoBalanceAnchor)
    );
    assert_eq!(find_latest_balance_snapshot(&data), Err(ProjectionError::NoBalanceAnchor));
}

#[test]
fn latest_snapshot_wins_and_the_first_on_a_tie() {
    let mut data = CashflowData::default();
    data.balance_snapshots.push(snapshot(date(2025, 1, 1), "1"));
    data.balance_snapshots.push(snapshot(date(2025, 3, 1), "2"));
    data.balance_snapshots.push(snapshot(date(2025, 3, 1), "3"));
    data.balance_snapshots.push(snapshot(date(2025, 2, 1), "4"));
    let latest = find_latest_balance_snapshot(&data).unwrap();
    assert_eq!(latest.balance, amount("2"));
}

#[test]
fn overflowing_balance_is_reported() {
    let mut data = CashflowData::default();
    let today = date(2025, 6, 1);
    let top = Amount::from_parts(79228162514264337593543950335, 0).unwrap();
    data.balance_snapshots.push(BalanceSnapshot { id: 1, date: today, balance: top, created_at: at(0) });
    data.one_time.push(entry(2, "One more", "1", today, 1));
    assert_eq!(project_cashflow(&data, today, 5), Err(ProjectionError::AmountOverflow));
}

#[test]
fn expansion_is_half_open() {
    let r = rule(1, "Rent", "-1", 5, 1);
    let occ = generate_recurring_transactions(&r, date(2025, 1, 5), date(2025, 3, 5));
    let dates: Vec<CivilDate> = occ.iter().map(|o| o.date).collect();
    assert_eq!(dates, vec![date(2025, 2, 5), date(2025, 3, 5)]);
    assert!(occ.iter().all(|o| o.is_recurring && o.source_id == 1));
}

#[test]
fn horizon_past_the_calendar_covers_every_later_day() {
    let mut data = CashflowData::default();
    let today = date(2025, 6, 1);
    data.balance_snapshots.push(snapshot(today, "0"));
    data.one_time.push(entry(2, "Far", "1", date(9999, 12, 31), 1));
    let (_, _, rows) = project_cashflow(&data, today, i64::MAX).unwrap();
    assert_eq!(rows.len(), 1);
}

#[test]
fn ledger_validity_checks_amounts_and_dates() {
    let mut data = CashflowData::default();
    data.balance_snapshots.push(snapshot(date(2025, 1, 1), "1"));
    assert!(ledger_is_valid(&data));
    data.one_time.push(entry(1, "Bad", "1", CivilDate { year: 2025, month: 2, day: 30 }, 1));
    assert!(!ledger_is_valid(&data));
    data.one_time.clear();
    let mut r = rule(2, "Big", "1", 1, 1);
    r.amount = Amount { mantissa: 1, scale: 29 };
    data.recurring.push(r);
    assert!(!ledger_is_valid(&data));
}
