//! Figures shown under a projection: the lowest balance and the change over
//! the window.
use crate::amount::Amount;
use crate::calendar::CivilDate;
use crate::models::TransactionView;
use vstd::prelude::*;

verus! {

/// Relies on rust_decimal's `Ord` for `Decimal`, which orders decimals by
/// their numeric value.
#[verifier::external_body]
fn decimal_lt(a: Amount, b: Amount) -> (r: bool)
    requires
        a.wf(),
        b.wf(),
    ensures
        r == (a.value() < b.value()),
{
    let x = rust_decimal::Decimal::from_i128_with_scale(a.mantissa, a.scale);
    let y = rust_decimal::Decimal::from_i128_with_scale(b.mantissa, b.scale);
    x < y
}

/// True when `a` is worth less than `b`.
pub fn is_less(a: Amount, b: Amount) -> (r: bool)
    requires
        a.wf(),
        b.wf(),
    ensures
        r == (a.value() < b.value()),
{
    decimal_lt(a, b)
}

/// What decimal subtraction yields for two amounts, `None` on overflow.
pub uninterp spec fn decimal_difference(a: Amount, b: Amount) -> Option<Amount>;

/// Relies on rust_decimal's `Decimal::checked_sub`: the difference of two
/// decimals, or `None` when it overflows. Any decimal it returns has a
/// mantissa below two to the 96th and a scale of at most 28.
#[verifier::external_body]
fn checked_sub(a: Amount, b: Amount) -> (r: Option<Amount>)
    requires
        a.wf(),
        b.wf(),
    ensures
        r == decimal_difference(a, b),
        r matches Some(s) ==> s.wf(),
{
    let x = rust_decimal::Decimal::from_i128_with_scale(a.mantissa, a.scale);
    let y = rust_decimal::Decimal::from_i128_with_scale(b.mantissa, b.scale);
    match x.checked_sub(y) {
        Some(s) => Some(Amount { mantissa: s.mantissa(), scale: s.scale() }),
        None => None,
    }
}

/// The lowest balance and the date it is first reached, starting from
/// `start` and walking the rows in order.
pub open spec fn lowest(start: (Amount, CivilDate), rows: Seq<TransactionView>) -> (Amount, CivilDate)
    decreases rows.len(),
{
    if rows.len() == 0 {
        start
    } else {
        let p = lowest(start, rows.drop_last());
        if rows.last().balance_after.value() < p.0.value() {
            (rows.last().balance_after, rows.last().date)
        } else {
            p
        }
    }
}

pub open spec fn balances_wf(rows: Seq<TransactionView>) -> bool {
    forall|i: int| 0 <= i < rows.len() ==> (#[trigger] rows[i]).balance_after.wf()
}

/// The lowest balance over the projection and the date it is first reached;
/// the starting balance on the start date when no row goes lower.
pub fn lowest_balance(start_balance: Amount, start_date: CivilDate, rows: &Vec<TransactionView>) -> (r:
    (Amount, CivilDate))
    requires
        start_balance.wf(),
        balances_wf(rows@),
    ensures
        r == lowest((start_balance, start_date), rows@),
{
    let mut min_balance = start_balance;
    let mut min_date = start_date;
    let mut i: usize = 0;
    while i < rows.len()
        invariant
            i <= rows@.len(),
            balances_wf(rows@),
            min_balance.wf(),
            (min_balance, min_date) == lowest((start_balance, start_date), rows@.take(i as int)),
        decreases rows@.len() - i,
    {
        assert(rows@.take(i + 1).drop_last() =~= rows@.take(i as int));
        let row = &rows[i];
        if decimal_lt(row.balance_after, min_balance) {
            min_balance = row.balance_after;
            min_date = row.date;
        }
        i = i + 1;
    }
    assert(rows@.take(i as int) =~= rows@);
    (min_balance, min_date)
}

/// The change over the window: the balance after the last row minus the
/// starting balance; `None` without rows or when the subtraction overflows.
pub fn total_change(start_balance: Amount, rows: &Vec<TransactionView>) -> (r: Option<Amount>)
    requires
        start_balance.wf(),
        balances_wf(rows@),
    ensures
        rows@.len() == 0 ==> r is None,
        rows@.len() > 0 ==> r == decimal_difference(rows@.last().balance_after, start_balance),
{
    if rows.len() == 0 {
        return None;
    }
    checked_sub(rows[rows.len() - 1].balance_after, start_balance)
}

} // verus!
