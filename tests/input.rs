use cashflow::amount::Amount;
use cashflow::calendar::CivilDate;
use cashflow::input::{parse_amount, parse_date, without_spaces, InputError};
use rust_decimal::Decimal;
use std::str::FromStr;

fn amount(s: &str) -> Amount {
    let d = Decimal::from_str(s).unwrap();
    Amount::from_parts(d.mantissa(), d.scale()).unwrap()
}

#[test]
fn test_parse_amount() {
    assert_eq!(parse_amount("22158").unwrap(), amount("22158"));
    assert_eq!(parse_amount("22 158").unwrap(), amount("22158"));
    assert_eq!(parse_amount("-478").unwrap(), amount("-478"));
    assert_eq!(parse_amount("- 478").unwrap(), amount("-478"));
}

#[test]
fn test_parse_date() {
    let expected = CivilDate::from_ymd_opt(2025, 10, 13).unwrap();
    assert_eq!(parse_date("13.10.2025").unwrap(), expected);
    assert_eq!(parse_date("2025-10-13").unwrap(), expected);
}

#[test]
fn parse_amount_refuses_text() {
    assert_eq!(parse_amount("abc"), Err(InputError::InvalidAmount));
    assert_eq!(parse_amount(""), Err(InputError::InvalidAmount));
}

#[test]
fn parse_amount_keeps_the_fraction() {
    let a = parse_amount("12.50").unwrap();
    assert_eq!((a.mantissa, a.scale), (1250, 2));
}

#[test]
fn parse_date_refuses_other_forms() {
    assert_eq!(parse_date("2025/10/13"), Err(InputError::InvalidDate));
    assert_eq!(parse_date("31.02.2025"), Err(InputError::InvalidDate));
}

#[test]
fn spaces_are_removed() {
    assert_eq!(without_spaces(" 1 2 3 "), "123");
    assert_eq!(without_spaces(""), "");
}
