//! Exact decimal amounts of money.
use vstd::prelude::*;

verus! {

/// Largest number of digits after the decimal point.
pub const MAX_SCALE: u32 = 28;

/// Exclusive bound on the magnitude of a mantissa (two to the 96th).
pub const MANTISSA_BOUND: i128 = 79228162514264337593543950336;

/// A decimal number `mantissa / 10^scale`, positive for income and negative
/// for expenses. Two amounts are equal when mantissa and scale agree.
#[derive(Clone, Copy, Debug, PartialEq, Eq, Structural)]
pub struct Amount {
    pub mantissa: i128,
    pub scale: u32,
}

/// Ten to the power `n`.
pub open spec fn pow10(n: nat) -> int
    decreases n,
{
    if n == 0 {
        1
    } else {
        10 * pow10((n - 1) as nat)
    }
}

impl Amount {
    pub open spec fn wf(&self) -> bool {
        &&& self.scale <= MAX_SCALE
        &&& -MANTISSA_BOUND < self.mantissa < MANTISSA_BOUND
    }

    /// The amount in units of ten to the minus `MAX_SCALE`.
    pub open spec fn value(&self) -> int {
        self.mantissa * pow10((MAX_SCALE - self.scale) as nat)
    }

    /// The amount `mantissa / 10^scale`, or `None` when the scale or the
    /// mantissa is out of range.
    pub fn from_parts(mantissa: i128, scale: u32) -> (r: Option<Amount>)
        ensures
            r is Some <==> (Amount { mantissa, scale }).wf(),
            r matches Some(a) ==> a.mantissa == mantissa && a.scale == scale,
    {
        if scale <= MAX_SCALE && -MANTISSA_BOUND < mantissa && mantissa < MANTISSA_BOUND {
            Some(Amount { mantissa, scale })
        } else {
            None
        }
    }

    /// True when scale and mantissa are in range.
    pub fn is_valid(&self) -> (r: bool)
        ensures
            r == self.wf(),
    {
        self.scale <= MAX_SCALE && -MANTISSA_BOUND < self.mantissa && self.mantissa < MANTISSA_BOUND
    }

    /// The whole amount `units`.
    pub fn from_units(units: i64) -> (r: Amount)
        ensures
            r.wf(),
            r.mantissa == units,
            r.scale == 0,
    {
        Amount { mantissa: units as i128, scale: 0 }
    }

    /// True for amounts below zero.
    pub fn is_sign_negative(&self) -> (r: bool)
        ensures
            r == (self.mantissa < 0),
    {
        self.mantissa < 0
    }
}

/// What decimal addition yields for two amounts, `None` on overflow.
pub uninterp spec fn decimal_sum(a: Amount, b: Amount) -> Option<Amount>;

/// Relies on rust_decimal's `Decimal::checked_add`: the sum of two decimals,
/// or `None` when it overflows. Any decimal it returns has a mantissa below
/// two to the 96th and a scale of at most 28.
#[verifier::external_body]
pub(crate) fn checked_add(a: Amount, b: Amount) -> (r: Option<Amount>)
    requires
        a.wf(),
        b.wf(),
    ensures
        r == decimal_sum(a, b),
        r matches Some(s) ==> s.wf(),
{
    let x = rust_decimal::Decimal::from_i128_with_scale(a.mantissa, a.scale);
    let y = rust_decimal::Decimal::from_i128_with_scale(b.mantissa, b.scale);
    match x.checked_add(y) {
        Some(s) => Some(Amount { mantissa: s.mantissa(), scale: s.scale() }),
        None => None,
    }
}

} // verus!
