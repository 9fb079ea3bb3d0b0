//! Reading amounts and dates typed by the user.
use crate::amount::Amount;
use crate::calendar::CivilDate;
use vstd::prelude::*;
use vstd::string::*;

verus! {

/// Why user input was refused.
#[derive(Clone, Copy, Debug, PartialEq, Eq, Structural)]
pub enum InputError {
    /// Not an amount; accepted forms are like "22158", "22 158" or "-478".
    InvalidAmount,
    /// Not a date; accepted forms are DD.MM.YYYY and YYYY-MM-DD.
    InvalidDate,
}

/// `t` without its spaces.
pub open spec fn remove_spaces(t: Seq<char>) -> Seq<char>
    decreases t.len(),
{
    if t.len() == 0 {
        t
    } else if t.last() == ' ' {
        remove_spaces(t.drop_last())
    } else {
        remove_spaces(t.drop_last()).push(t.last())
    }
}

/// The decimal rust_decimal reads from a text, `None` when it reads none.
pub uninterp spec fn parsed_decimal(s: Seq<char>) -> Option<Amount>;

/// Relies on rust_decimal's `Decimal::from_str`: the decimal a text spells,
/// or an error. Any decimal it returns has a mantissa below two to the 96th
/// and a scale of at most 28.
#[verifier::external_body]
fn decimal_from_str(s: &str) -> (r: Option<Amount>)
    ensures
        r == parsed_decimal(s@),
        r matches Some(a) ==> a.wf(),
{
    match <rust_decimal::Decimal as core::str::FromStr>::from_str(s) {
        Ok(d) => Some(Amount { mantissa: d.mantissa(), scale: d.scale() }),
        Err(_) => None,
    }
}

/// Copies `s` without its spaces.
pub fn without_spaces(s: &str) -> (r: String)
    ensures
        r@ == remove_spaces(s@),
{
    let n = s.unicode_len();
    let mut r = String::new();
    let mut i: usize = 0;
    while i < n
        invariant
            n == s@.len(),
            i <= n,
            r@ == remove_spaces(s@.take(i as int)),
        decreases n - i,
    {
        assert(s@.take(i + 1).drop_last() =~= s@.take(i as int));
        if s.get_char(i) != ' ' {
            let piece = s.substring_char(i, i + 1);
            r.append(piece);
            assert(r@ =~= remove_spaces(s@.take(i + 1)));
        }
        i = i + 1;
    }
    assert(s@.take(i as int) =~= s@);
    r
}

/// Reads an amount such as "22158", "22 158", "-478" or "- 478": spaces are
/// dropped, and the rest must be a decimal number.
pub fn parse_amount(s: &str) -> (r: Result<Amount, InputError>)
    ensures
        r matches Ok(a) ==> parsed_decimal(remove_spaces(s@)) == Some(a) && a.wf(),
        r is Err <==> parsed_decimal(remove_spaces(s@)) is None,
        r matches Err(e) ==> e == InputError::InvalidAmount,
{
    let cleaned = without_spaces(s);
    match decimal_from_str(cleaned.as_str()) {
        Some(a) => Ok(a),
        None => Err(InputError::InvalidAmount),
    }
}

/// The date chrono reads from a text in a strftime format, `None` when it
/// reads none.
pub uninterp spec fn parsed_date(s: Seq<char>, format: Seq<char>) -> Option<CivilDate>;

/// Relies on chrono's `NaiveDate::parse_from_str`: the date a text spells
/// in the given format, or an error. Any date it returns is a valid date.
#[verifier::external_body]
fn date_from_str(s: &str, format: &str) -> (r: Option<CivilDate>)
    ensures
        r == parsed_date(s@, format@),
        r matches Some(d) ==> d.wf(),
{
    match chrono::NaiveDate::parse_from_str(s, format) {
        Ok(d) => Some(
            CivilDate {
                year: chrono::Datelike::year(&d),
                month: chrono::Datelike::month(&d),
                day: chrono::Datelike::day(&d),
            },
        ),
        Err(_) => None,
    }
}

/// Reads a date as DD.MM.YYYY, or failing that as YYYY-MM-DD.
pub fn parse_date(s: &str) -> (r: Result<CivilDate, InputError>)
    ensures
        parsed_date(s@, "%d.%m.%Y"@) matches Some(d) ==> r == Ok::<CivilDate, InputError>(d),
        parsed_date(s@, "%d.%m.%Y"@) is None ==> r == match parsed_date(s@, "%Y-%m-%d"@) {
            Some(d) => Ok(d),
            None => Err(InputError::InvalidDate),
        },
        r matches Ok(d) ==> d.wf(),
{
    if let Some(d) = date_from_str(s, "%d.%m.%Y") {
        return Ok(d);
    }
    if let Some(d) = date_from_str(s, "%Y-%m-%d") {
        return Ok(d);
    }
    Err(InputError::InvalidDate)
}

} // verus!
