use cashflow::amount::Amount;
use cashflow::format::{add_thousand_separators, format_amount, format_amount_text};
use rust_decimal::Decimal;
use std::str::FromStr;

fn amount(s: &str) -> Amount {
    let d = Decimal::from_str(s).unwrap();
    Amount::from_parts(d.mantissa(), d.scale()).unwrap()
}

#[test]
fn test_add_thousand_separators() {
    assert_eq!(add_thousand_separators("1000"), "1 000");
    assert_eq!(add_thousand_separators("22158"), "22 158");
    assert_eq!(add_thousand_separators("1000000"), "1 000 000");
    assert_eq!(add_thousand_separators("123"), "123");
}

#[test]
fn test_format_amount() {
    assert_eq!(format_amount(amount("22158")), "22 158 Kč");
    assert_eq!(format_amount(amount("-478")), "-478 Kč");
    assert_eq!(format_amount(amount("1000000")), "1 000 000 Kč");
}

#[test]
fn separators_on_short_and_empty_text() {
    assert_eq!(add_thousand_separators(""), "");
    assert_eq!(add_thousand_separators("7"), "7");
    assert_eq!(add_thousand_separators("123456"), "123 456");
}

#[test]
fn format_amount_drops_the_fraction() {
    assert_eq!(format_amount(amount("-1234.56")), "-1 234 Kč");
    assert_eq!(format_amount(amount("0.5")), "0 Kč");
    assert_eq!(format_amount_text(false, "98765.4321"), "98 765 Kč");
    assert_eq!(format_amount_text(true, "12"), "-12 Kč");
}
