use cashflow::amount::Amount;
use cashflow::calendar::CivilDate;
use cashflow::models::TransactionView;
use cashflow::summary::{is_less, lowest_balance, total_change};

fn date(y: i32, m: u32, d: u32) -> CivilDate {
    CivilDate::from_ymd_opt(y, m, d).unwrap()
}

fn row(on: CivilDate, amount: i64, after: i64) -> TransactionView {
    TransactionView {
        date: on,
        day_of_month: on.day as u8,
        description: "row".to_string(),
        amount: Amount::from_units(amount),
        is_one_time: false,
        balance_after: Amount::from_units(after),
    }
}

#[test]
fn lowest_balance_is_the_first_minimum() {
    let rows = vec![
        row(date(2025, 1, 5), -600, 400),
        row(date(2025, 1, 9), -300, 100),
        row(date(2025, 1, 20), 500, 600),
        row(date(2025, 1, 25), -500, 100),
    ];
    assert_eq!(
        lowest_balance(Amount::from_units(1000), date(2025, 1, 1), &rows),
        (Amount::from_units(100), date(2025, 1, 9))
    );
    assert_eq!(
        lowest_balance(Amount::from_units(50), date(2025, 1, 1), &rows),
        (Amount::from_units(50), date(2025, 1, 1))
    );
}

#[test]
fn total_change_is_last_minus_start() {
    let rows = vec![row(date(2025, 1, 5), -600, 400), row(date(2025, 1, 9), -300, 100)];
    assert_eq!(total_change(Amount::from_units(1000), &rows), Some(Amount::from_units(-900)));
    assert_eq!(total_change(Amount::from_units(1000), &Vec::new()), None);
}

#[test]
fn amounts_compare_by_value() {
    let tenth = Amount::from_parts(1, 1).unwrap();
    let ten_hundredths = Amount::from_parts(10, 2).unwrap();
    assert!(!is_less(tenth, ten_hundredths));
    assert!(!is_less(ten_hundredths, tenth));
    assert!(is_less(Amount::from_units(-5), tenth));
}
