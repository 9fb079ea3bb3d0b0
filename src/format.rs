//! Text forms of amounts: thousands grouped by spaces, a sign, the currency.
use crate::amount::Amount;
use vstd::prelude::*;
use vstd::string::*;

verus! {

/// Groups of three characters, each preceded by a space.
pub open spec fn triples(d: Seq<char>) -> Seq<char>
    decreases d.len(),
{
    if d.len() < 3 {
        seq![]
    } else {
        seq![' '] + d.take(3) + triples(d.skip(3))
    }
}

/// `d` with a space between each group of three characters, counted from
/// the right.
pub open spec fn group_thousands(d: Seq<char>) -> Seq<char> {
    if d.len() == 0 {
        d
    } else {
        let first = (d.len() - 1) % 3 + 1;
        d.take(first) + triples(d.skip(first))
    }
}

/// The characters before the first decimal point.
pub open spec fn before_dot(t: Seq<char>) -> Seq<char>
    decreases t.len(),
{
    if t.len() == 0 || t[0] == '.' {
        seq![]
    } else {
        seq![t[0]] + before_dot(t.skip(1))
    }
}

/// The text of an amount: a minus sign for negative amounts, the whole part
/// of the magnitude grouped by thousands, and the currency.
pub open spec fn amount_text(negative: bool, magnitude: Seq<char>) -> Seq<char> {
    (if negative {
        seq!['-']
    } else {
        seq![]
    }) + group_thousands(before_dot(magnitude)) + seq![' ', 'K', 'č']
}

/// Inserts a space between each group of three characters, counted from the
/// right: "22158" becomes "22 158".
pub fn add_thousand_separators(s: &str) -> (r: String)
    ensures
        r@ == group_thousands(s@),
{
    let n = s.unicode_len();
    if n == 0 {
        return String::new();
    }
    let first = (n - 1) % 3 + 1;
    let ghost d = s@;
    let mut result = String::from_str(s.substring_char(0, first));
    let mut i = first;
    proof {
        reveal_strlit(" ");
    }
    while i < n
        invariant
            n == d.len(),
            d == s@,
            first == (n - 1) % 3 + 1,
            first <= i <= n,
            (n - i) % 3 == 0,
            result@ + triples(d.skip(i as int)) == group_thousands(d),
            " "@ == seq![' '],
        decreases n - i,
    {
        let ghost rest = d.skip(i as int);
        assert(rest.len() >= 3);
        assert(rest.take(3) =~= d.subrange(i as int, i + 3));
        assert(rest.skip(3) =~= d.skip(i + 3));
        result.append(" ");
        result.append(s.substring_char(i, i + 3));
        i = i + 3;
        assert(result@ + triples(d.skip(i as int)) =~= group_thousands(d));
    }
    assert(d.skip(i as int).len() == 0);
    assert(result@ =~= group_thousands(d));
    result
}

/// Lays out an amount given the sign and the text of its magnitude:
/// "-478 Kč", "22 158 Kč". Digits after a decimal point are left out.
pub fn format_amount_text(negative: bool, magnitude: &str) -> (r: String)
    ensures
        r@ == amount_text(negative, magnitude@),
{
    let ghost t = magnitude@;
    let n = magnitude.unicode_len();
    let mut i: usize = 0;
    assert(t.skip(0) =~= t);
    assert(t.take(0) + before_dot(t) =~= before_dot(t));
    while i < n
        invariant
            n == t.len(),
            t == magnitude@,
            i <= n,
            before_dot(t) == t.take(i as int) + before_dot(t.skip(i as int)),
        ensures
            i <= n,
            before_dot(t) == t.take(i as int) + before_dot(t.skip(i as int)),
            i < n ==> t[i as int] == '.',
        decreases n - i,
    {
        if magnitude.get_char(i) == '.' {
            break ;
        }
        assert(t.skip(i as int).skip(1) =~= t.skip(i + 1));
        assert(t.take(i + 1) =~= t.take(i as int) + seq![t[i as int]]);
        i = i + 1;
    }
    if i == n {
        assert(t.skip(i as int).len() == 0);
    } else {
        assert(t.skip(i as int)[0] == '.');
    }
    assert(t.take(i as int) =~= before_dot(t));
    let grouped = add_thousand_separators(magnitude.substring_char(0, i));
    proof {
        reveal_strlit("-");
        reveal_strlit(" Kč");
    }
    let mut r = if negative {
        String::from_str("-")
    } else {
        String::new()
    };
    r.append(grouped.as_str());
    r.append(" Kč");
    assert(r@ =~= amount_text(negative, t));
    r
}

/// The text of a decimal's magnitude, as rust_decimal displays it.
pub uninterp spec fn magnitude_text(a: Amount) -> Seq<char>;

/// Relies on rust_decimal's `Decimal::abs` and its `Display`: the digits of
/// the magnitude, with a decimal point before the last `scale` digits.
#[verifier::external_body]
fn decimal_magnitude_text(a: Amount) -> (r: String)
    requires
        a.wf(),
    ensures
        r@ == magnitude_text(a),
{
    rust_decimal::Decimal::from_i128_with_scale(a.mantissa, a.scale).abs().to_string()
}

/// Formats an amount as Czech currency: "22 158 Kč", "-478 Kč".
pub fn format_amount(amount: Amount) -> (r: String)
    requires
        amount.wf(),
    ensures
        r@ == amount_text(amount.mantissa < 0, magnitude_text(amount)),
{
    let magnitude = decimal_magnitude_text(amount);
    format_amount_text(amount.is_sign_negative(), magnitude.as_str())
}

} // verus!
