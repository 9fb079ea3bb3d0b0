//! The order in which the ledger's transactions are listed.
use crate::calendar::{date_le, date_lt, CivilDate};
use crate::models::{OneTimeTransaction, RecurringTransaction};
use vstd::prelude::*;

verus! {

/// Inserts `x` after every element of `s` whose key is not greater.
pub open spec fn insert_by_key(s: Seq<usize>, x: usize, keys: Seq<int>) -> Seq<usize>
    decreases s.len(),
{
    if s.len() == 0 {
        seq![x]
    } else if keys[x as int] < keys[s.last() as int] {
        insert_by_key(s.drop_last(), x, keys).push(s.last())
    } else {
        s.push(x)
    }
}

/// The positions `s` ordered by `keys`; equal keys keep their order.
pub open spec fn sort_by_keys(s: Seq<usize>, keys: Seq<int>) -> Seq<usize>
    decreases s.len(),
{
    if s.len() == 0 {
        seq![]
    } else {
        insert_by_key(sort_by_keys(s.drop_last(), keys), s.last(), keys)
    }
}

proof fn lemma_insert_by_key_at(s: Seq<usize>, x: usize, keys: Seq<int>, j: int)
    requires
        0 <= j <= s.len(),
        forall|k: int| j <= k < s.len() ==> keys[x as int] < keys[#[trigger] s[k] as int],
        j == 0 || !(keys[x as int] < keys[s[j - 1] as int]),
    ensures
        insert_by_key(s, x, keys) == s.take(j) + seq![x] + s.skip(j),
    decreases s.len(),
{
    if s.len() == j {
        assert(s.take(j) + seq![x] + s.skip(j) =~= s.push(x));
    } else {
        let t = s.drop_last();
        assert forall|k: int| j <= k < t.len() implies keys[x as int] < keys[#[trigger] t[k] as int] by {
            assert(t[k] == s[k]);
        }
        if j > 0 {
            assert(t[j - 1] == s[j - 1]);
        }
        lemma_insert_by_key_at(t, x, keys, j);
        assert((t.take(j) + seq![x] + t.skip(j)).push(s.last()) =~= s.take(j) + seq![x] + s.skip(
            j,
        ));
    }
}

/// Orders positions by their keys, keeping the order of equal keys.
fn stable_order(positions: Vec<usize>, keys: &Vec<i64>) -> (r: Vec<usize>)
    requires
        forall|i: int| 0 <= i < positions@.len() ==> (#[trigger] positions@[i]) < keys@.len(),
    ensures
        r@ == sort_by_keys(positions@, keys@.map_values(|k: i64| k as int)),
{
    let ghost ks = keys@.map_values(|k: i64| k as int);
    let ghost orig = positions@;
    let mut rest = positions;
    let mut sorted: Vec<usize> = Vec::new();
    let ghost mut n: int = 0;
    while rest.len() > 0
        invariant
            0 <= n <= orig.len(),
            rest@ == orig.skip(n),
            sorted@ == sort_by_keys(orig.take(n), ks),
            ks == keys@.map_values(|k: i64| k as int),
            forall|i: int| 0 <= i < orig.len() ==> (#[trigger] orig[i]) < keys@.len(),
            forall|i: int| 0 <= i < sorted@.len() ==> (#[trigger] sorted@[i]) < keys@.len(),
        decreases rest@.len(),
    {
        let x = rest.remove(0);
        assert(orig[n] == x);
        let mut j = sorted.len();
        while j > 0
            invariant
                j <= sorted@.len(),
                x < keys@.len(),
                ks == keys@.map_values(|k: i64| k as int),
                forall|i: int| 0 <= i < sorted@.len() ==> (#[trigger] sorted@[i]) < keys@.len(),
                forall|m: int| j <= m < sorted@.len() ==> ks[x as int] < ks[#[trigger] sorted@[m] as int],
            ensures
                j <= sorted@.len(),
                forall|m: int| j <= m < sorted@.len() ==> ks[x as int] < ks[#[trigger] sorted@[m] as int],
                j == 0 || !(ks[x as int] < ks[sorted@[j - 1] as int]),
            decreases j,
        {
            if !(keys[x] < keys[sorted[j - 1]]) {
                break ;
            }
            j = j - 1;
        }
        proof {
            lemma_insert_by_key_at(sorted@, x, ks, j as int);
            assert(orig.take(n + 1).drop_last() =~= orig.take(n));
        }
        sorted.insert(j, x);
        proof {
            assert(sorted@ =~= sort_by_keys(orig.take(n + 1), ks));
            n = n + 1;
            assert(rest@ =~= orig.skip(n));
        }
    }
    assert(orig.take(n) =~= orig);
    sorted
}

/// A key that orders valid dates as the calendar does.
pub open spec fn date_key(d: CivilDate) -> int {
    d.year * 512 + d.month * 32 + d.day
}

/// On valid dates the key orders as the calendar does.
pub proof fn lemma_date_key_order(a: CivilDate, b: CivilDate)
    requires
        a.wf(),
        b.wf(),
    ensures
        date_lt(a, b) <==> date_key(a) < date_key(b),
        a == b <==> date_key(a) == date_key(b),
{
}

/// The positions of the entries to list: all of them, or only those dated
/// `today` or later.
pub open spec fn listed_entries(entries: Seq<OneTimeTransaction>, upcoming_only: bool, today: CivilDate) -> Seq<
    usize,
>
    decreases entries.len(),
{
    if entries.len() == 0 {
        seq![]
    } else {
        let prev = listed_entries(entries.drop_last(), upcoming_only, today);
        if !upcoming_only || date_le(today, entries.last().date) {
            prev.push((entries.len() - 1) as usize)
        } else {
            prev
        }
    }
}

/// The positions of the one-time entries to list, ordered by date; entries
/// of one date keep their ledger order. With `upcoming_only`, entries dated
/// before `today` are left out.
pub fn one_time_listing(entries: &Vec<OneTimeTransaction>, upcoming_only: bool, today: CivilDate) -> (r:
    Vec<usize>)
    ensures
        r@ == sort_by_keys(
            listed_entries(entries@, upcoming_only, today),
            entries@.map_values(|e: OneTimeTransaction| date_key(e.date)),
        ),
{
    let mut keys: Vec<i64> = Vec::new();
    let mut positions: Vec<usize> = Vec::new();
    let mut i: usize = 0;
    while i < entries.len()
        invariant
            i <= entries@.len(),
            keys@.len() == i,
            forall|k: int| 0 <= k < i ==> keys@[k] as int == date_key(#[trigger] entries@[k].date),
            positions@ == listed_entries(entries@.take(i as int), upcoming_only, today),
            forall|k: int| 0 <= k < positions@.len() ==> (#[trigger] positions@[k]) < i,
        decreases entries@.len() - i,
    {
        assert(entries@.take(i + 1).drop_last() =~= entries@.take(i as int));
        let d = entries[i].date;
        keys.push(d.year as i64 * 512 + d.month as i64 * 32 + d.day as i64);
        if !upcoming_only || !d.is_before(&today) {
            positions.push(i);
        }
        i = i + 1;
    }
    assert(entries@.take(i as int) =~= entries@);
    assert(keys@.map_values(|k: i64| k as int) =~= entries@.map_values(
        |e: OneTimeTransaction| date_key(e.date),
    ));
    stable_order(positions, &keys)
}

/// The positions of the recurring rules ordered by day of month; rules of
/// one day keep their ledger order.
pub fn recurring_listing(rules: &Vec<RecurringTransaction>) -> (r: Vec<usize>)
    ensures
        r@ == sort_by_keys(
            Seq::new(rules@.len(), |i: int| i as usize),
            rules@.map_values(|t: RecurringTransaction| t.day_of_month as int),
        ),
{
    let mut keys: Vec<i64> = Vec::new();
    let mut positions: Vec<usize> = Vec::new();
    let mut i: usize = 0;
    while i < rules.len()
        invariant
            i <= rules@.len(),
            keys@.len() == i,
            forall|k: int| 0 <= k < i ==> keys@[k] as int == (#[trigger] rules@[k]).day_of_month as int,
            positions@ == Seq::new(i as nat, |k: int| k as usize),
        decreases rules@.len() - i,
    {
        keys.push(rules[i].day_of_month as i64);
        positions.push(i);
        assert(positions@ =~= Seq::new((i + 1) as nat, |k: int| k as usize));
        i = i + 1;
    }
    assert(keys@.map_values(|k: i64| k as int) =~= rules@.map_values(
        |t: RecurringTransaction| t.day_of_month as int,
    ));
    stable_order(positions, &keys)
}

} // verus!
