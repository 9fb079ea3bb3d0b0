//! Identifiers typed by the user: a full UUID, or the first characters of
//! one that match exactly one transaction.
use vstd::arithmetic::power2::pow2;
use vstd::prelude::*;
use vstd::string::*;

verus! {

/// Why an identifier typed by the user names no transaction.
#[derive(Clone, Copy, Debug, PartialEq, Eq, Structural)]
pub enum IdError {
    /// Neither a UUID nor a prefix of at least eight characters.
    InvalidFormat,
    /// No identifier starts with the prefix.
    NoMatch,
    /// Several identifiers start with the prefix.
    Ambiguous,
}

/// The sixteen lowercase hexadecimal digits.
pub open spec fn hex_digits() -> Seq<char> {
    seq!['0', '1', '2', '3', '4', '5', '6', '7', '8', '9', 'a', 'b', 'c', 'd', 'e', 'f']
}

/// The `i`-th of the 32 hexadecimal digits of `id`, most significant first.
pub open spec fn hex_digit_of(id: u128, i: int) -> char {
    hex_digits()[(id as int / pow2((4 * (31 - i)) as nat) as int) % 16]
}

/// The hyphenated lowercase text of a UUID: 8-4-4-4-12 hexadecimal digits.
pub open spec fn uuid_text(id: u128) -> Seq<char> {
    let hex = Seq::new(32, |i: int| hex_digit_of(id, i));
    hex.subrange(0, 8) + seq!['-'] + hex.subrange(8, 12) + seq!['-'] + hex.subrange(12, 16) + seq![
        '-',
    ] + hex.subrange(16, 20) + seq!['-'] + hex.subrange(20, 32)
}

/// Relies on uuid's `Display` for `Uuid`: the hyphenated lowercase form.
#[verifier::external_body]
fn uuid_to_string(id: u128) -> (r: String)
    ensures
        r@ == uuid_text(id),
{
    uuid::Uuid::from_u128(id).to_string()
}

/// The UUID uuid reads from a text, `None` when it reads none.
pub uninterp spec fn parsed_uuid(s: Seq<char>) -> Option<u128>;

/// Relies on uuid's `Uuid::parse_str`: the UUID a text spells, or an error.
#[verifier::external_body]
fn uuid_from_str(s: &str) -> (r: Option<u128>)
    ensures
        r == parsed_uuid(s@),
{
    match uuid::Uuid::parse_str(s) {
        Ok(u) => Some(u.as_u128()),
        Err(_) => None,
    }
}

/// What std's `str::to_lowercase` makes of a text.
pub uninterp spec fn lower_of(s: Seq<char>) -> Seq<char>;

/// Relies on std's `str::to_lowercase`: the result depends on the characters
/// alone.
#[verifier::external_body]
fn lowercase(s: &str) -> (r: String)
    ensures
        r@ == lower_of(s@),
{
    s.to_lowercase()
}

/// True when the text of `id` starts with `prefix`.
pub open spec fn id_starts_with(id: u128, prefix: Seq<char>) -> bool {
    prefix.len() <= uuid_text(id).len() && uuid_text(id).take(prefix.len() as int) == prefix
}

/// The identifiers whose text starts with `prefix`, in order.
pub open spec fn ids_with_prefix(ids: Seq<u128>, prefix: Seq<char>) -> Seq<u128>
    decreases ids.len(),
{
    if ids.len() == 0 {
        seq![]
    } else if id_starts_with(ids.last(), prefix) {
        ids_with_prefix(ids.drop_last(), prefix).push(ids.last())
    } else {
        ids_with_prefix(ids.drop_last(), prefix)
    }
}

/// True when `text` starts with `prefix`.
fn starts_with(text: &str, prefix: &str) -> (r: bool)
    ensures
        r == (prefix@.len() <= text@.len() && text@.take(prefix@.len() as int) == prefix@),
{
    let n = prefix.unicode_len();
    if n > text.unicode_len() {
        return false;
    }
    let mut i: usize = 0;
    while i < n
        invariant
            n == prefix@.len(),
            n <= text@.len(),
            i <= n,
            text@.take(i as int) == prefix@.take(i as int),
        decreases n - i,
    {
        if text.get_char(i) != prefix.get_char(i) {
            assert(text@.take(n as int)[i as int] != prefix@[i as int]);
            return false;
        }
        assert(text@.take(i + 1) =~= text@.take(i as int).push(text@[i as int]));
        assert(prefix@.take(i + 1) =~= prefix@.take(i as int).push(prefix@[i as int]));
        i = i + 1;
    }
    assert(prefix@.take(n as int) =~= prefix@);
    true
}

/// Picks the one identifier whose text starts with `prefix`.
pub fn resolve_prefix(prefix: &str, ids: &Vec<u128>) -> (r: Result<u128, IdError>)
    ensures
        ids_with_prefix(ids@, prefix@).len() == 0 ==> r == Err::<u128, IdError>(IdError::NoMatch),
        ids_with_prefix(ids@, prefix@).len() == 1 ==> r == Ok::<u128, IdError>(
            ids_with_prefix(ids@, prefix@)[0],
        ),
        ids_with_prefix(ids@, prefix@).len() > 1 ==> r == Err::<u128, IdError>(IdError::Ambiguous),
{
    let mut matching: Vec<u128> = Vec::new();
    let mut i: usize = 0;
    while i < ids.len()
        invariant
            i <= ids@.len(),
            matching@ == ids_with_prefix(ids@.take(i as int), prefix@),
        decreases ids@.len() - i,
    {
        assert(ids@.take(i + 1).drop_last() =~= ids@.take(i as int));
        let text = uuid_to_string(ids[i]);
        if starts_with(text.as_str(), prefix) {
            matching.push(ids[i]);
        }
        i = i + 1;
    }
    assert(ids@.take(i as int) =~= ids@);
    if matching.len() == 0 {
        Err(IdError::NoMatch)
    } else if matching.len() == 1 {
        Ok(matching[0])
    } else {
        Err(IdError::Ambiguous)
    }
}

/// Reads an identifier: a full UUID, or the first eight or more characters
/// of exactly one of `ids`, in either case.
pub fn parse_uuid(s: &str, ids: &Vec<u128>) -> (r: Result<u128, IdError>)
    ensures
        parsed_uuid(s@) matches Some(u) ==> r == Ok::<u128, IdError>(u),
        parsed_uuid(s@) is None && (s.spec_bytes().len() as usize) < 8 ==> r == Err::<u128, IdError>(
            IdError::InvalidFormat,
        ),
        parsed_uuid(s@) is None && (s.spec_bytes().len() as usize) >= 8 ==> {
            let m = ids_with_prefix(ids@, lower_of(s@));
            &&& m.len() == 0 ==> r == Err::<u128, IdError>(IdError::NoMatch)
            &&& m.len() == 1 ==> r == Ok::<u128, IdError>(m[0])
            &&& m.len() > 1 ==> r == Err::<u128, IdError>(IdError::Ambiguous)
        },
{
    if let Some(u) = uuid_from_str(s) {
        return Ok(u);
    }
    if s.len() >= 8 {
        let prefix = lowercase(s);
        return resolve_prefix(prefix.as_str(), ids);
    }
    Err(IdError::InvalidFormat)
}

} // verus!
