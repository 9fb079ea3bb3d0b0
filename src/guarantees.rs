//! What the projection engine guarantees, stated over its specification and
//! proved.
use crate::amount::{decimal_sum, Amount};
use crate::calendar::{
    date_le, date_lt, dates_from, days_after, is_leap_year, month_index, month_occurrence,
    lemma_next_month_spec, next_month_spec, ymd, CivilDate, MAX_YEAR, MIN_YEAR,
};
use crate::models::{BalanceSnapshot, CashflowData, OneTimeTransaction, RecurringTransaction, TransactionView};
use crate::projection::{
    entries_strictly_between, entries_within, entry_occurrence, expand_spec, insert_sorted,
    latest_index, lemma_insert_sorted_contains, lemma_sort_contains,
    occurrence_lt, past_occurrences, projected_occurrences, projection_spec, reconciled_balance,
    recurring_occurrences, row_of, rule_occurrence, run_balance, sort_occurrences,
    upcoming_occurrences, window_end, ledger_wf, Occurrence, Projection,
};
use vstd::prelude::*;

verus! {

// ----- the expansion of a rule -----

/// Every date the expansion yields lies in `(start, end]`.
proof fn lemma_dates_from_bounds(target: int, start: CivilDate, end: CivilDate, pointer: CivilDate)
    ensures
        forall|i: int|
            0 <= i < dates_from(target, start, end, pointer).len() ==> {
                let d = #[trigger] dates_from(target, start, end, pointer)[i];
                date_lt(start, d) && date_le(d, end)
            },
    decreases month_index(end) - month_index(pointer),
{
    let all = dates_from(target, start, end, pointer);
    let here = match month_occurrence(pointer.year as int, pointer.month as int, target) {
        Some(d) => if date_lt(start, d) && date_le(d, end) {
            seq![d]
        } else {
            seq![]
        },
        None => seq![],
    };
    if pointer.wf() && end.wf() && month_index(pointer) < month_index(end) {
        lemma_next_month_spec(pointer);
        let rest = dates_from(target, start, end, next_month_spec(pointer));
        lemma_dates_from_bounds(target, start, end, next_month_spec(pointer));
        assert(all == here + rest);
        assert forall|i: int| 0 <= i < all.len() implies date_lt(start, #[trigger] all[i])
            && date_le(all[i], end) by {
            if i >= here.len() {
                assert(all[i] == rest[i - here.len()]);
            }
        }
    } else {
        assert(all == here);
    }
}

/// The expansion visits every month from the pointer's to `end`'s, so it
/// yields each month's clamped date that lies in `(start, end]`.
proof fn lemma_dates_from_contains(
    target: int,
    start: CivilDate,
    end: CivilDate,
    pointer: CivilDate,
    d: CivilDate,
)
    requires
        pointer.wf(),
        end.wf(),
        d.wf(),
        month_occurrence(d.year as int, d.month as int, target) == Some(d),
        month_index(pointer) <= month_index(d),
        date_lt(start, d),
        date_le(d, end),
    ensures
        dates_from(target, start, end, pointer).contains(d),
    decreases month_index(end) - month_index(pointer),
{
    let all = dates_from(target, start, end, pointer);
    assert(month_index(d) <= month_index(end));
    if month_index(pointer) == month_index(d) {
        assert(pointer.year == d.year && pointer.month == d.month);
        assert(all[0] == d);
    } else {
        lemma_next_month_spec(pointer);
        let next = next_month_spec(pointer);
        lemma_dates_from_contains(target, start, end, next, d);
        let rest = dates_from(target, start, end, next);
        let i = choose|i: int| 0 <= i < rest.len() && rest[i] == d;
        let here_len = all.len() - rest.len();
        assert(all[here_len + i] == d);
    }
}

/// An active rule contributes every occurrence of its expansion.
proof fn lemma_recurring_contains(
    rules: Seq<RecurringTransaction>,
    start: CivilDate,
    end: CivilDate,
    i: int,
    o: Occurrence,
)
    requires
        0 <= i < rules.len(),
        rules[i].active,
        expand_spec(rules[i], start, end).contains(o),
    ensures
        recurring_occurrences(rules, start, end).contains(o),
    decreases rules.len(),
{
    let t = rules.drop_last();
    let prev = recurring_occurrences(t, start, end);
    let all = recurring_occurrences(rules, start, end);
    if i < rules.len() - 1 {
        assert(t[i] == rules[i]);
        lemma_recurring_contains(t, start, end, i, o);
        let k = choose|k: int| 0 <= k < prev.len() && prev[k] == o;
        if rules.last().active {
            assert(all[k] == o);
        }
    } else {
        let ex = expand_spec(rules.last(), start, end);
        let k = choose|k: int| 0 <= k < ex.len() && ex[k] == o;
        assert(all[prev.len() + k] == o);
    }
}

/// Every occurrence of the recurring part comes from a rule.
proof fn lemma_recurring_is_recurring(
    rules: Seq<RecurringTransaction>,
    start: CivilDate,
    end: CivilDate,
)
    ensures
        forall|k: int|
            0 <= k < recurring_occurrences(rules, start, end).len() ==> {
                let o = #[trigger] recurring_occurrences(rules, start, end)[k];
                o.is_recurring && date_lt(start, o.date) && date_le(o.date, end)
            },
    decreases rules.len(),
{
    if rules.len() > 0 {
        let t = rules.drop_last();
        lemma_recurring_is_recurring(t, start, end);
        let prev = recurring_occurrences(t, start, end);
        let all = recurring_occurrences(rules, start, end);
        let rule = rules.last();
        let dates = dates_from(rule.day_of_month as int, start, end, start);
        lemma_dates_from_bounds(rule.day_of_month as int, start, end, start);
        assert forall|k: int| 0 <= k < all.len() implies {
            let o = #[trigger] all[k];
            o.is_recurring && date_lt(start, o.date) && date_le(o.date, end)
        } by {
            if k >= prev.len() {
                assert(all[k] == rule_occurrence(rule, dates[k - prev.len()]));
            }
        }
    }
}

/// The active rules of `rules`, in order.
pub open spec fn active_rules(rules: Seq<RecurringTransaction>) -> Seq<RecurringTransaction>
    decreases rules.len(),
{
    if rules.len() == 0 {
        rules
    } else if rules.last().active {
        active_rules(rules.drop_last()).push(rules.last())
    } else {
        active_rules(rules.drop_last())
    }
}

/// Leaving out inactive rules changes nothing.
proof fn lemma_recurring_active_only(rules: Seq<RecurringTransaction>, start: CivilDate, end: CivilDate)
    ensures
        recurring_occurrences(rules, start, end) == recurring_occurrences(
            active_rules(rules),
            start,
            end,
        ),
    decreases rules.len(),
{
    if rules.len() > 0 {
        let t = rules.drop_last();
        lemma_recurring_active_only(t, start, end);
        if rules.last().active {
            let at = active_rules(t);
            assert(at.push(rules.last()).drop_last() =~= at);
        }
    }
}

// ----- one-time entries -----

proof fn lemma_entries_within_bounds(entries: Seq<OneTimeTransaction>, lo: CivilDate, hi: CivilDate)
    ensures
        forall|k: int|
            0 <= k < entries_within(entries, lo, hi).len() ==> {
                let o = #[trigger] entries_within(entries, lo, hi)[k];
                !o.is_recurring && date_le(lo, o.date) && date_le(o.date, hi)
            },
    decreases entries.len(),
{
    if entries.len() > 0 {
        lemma_entries_within_bounds(entries.drop_last(), lo, hi);
        let prev = entries_within(entries.drop_last(), lo, hi);
        let all = entries_within(entries, lo, hi);
        assert forall|k: int| 0 <= k < all.len() implies {
            let o = #[trigger] all[k];
            !o.is_recurring && date_le(lo, o.date) && date_le(o.date, hi)
        } by {
            if k < prev.len() {
                assert(all[k] == prev[k]);
            }
        }
    }
}

proof fn lemma_entries_between_bounds(
    entries: Seq<OneTimeTransaction>,
    lo: CivilDate,
    hi: CivilDate,
)
    ensures
        forall|k: int|
            0 <= k < entries_strictly_between(entries, lo, hi).len() ==> date_lt(
                (#[trigger] entries_strictly_between(entries, lo, hi)[k]).date,
                hi,
            ),
    decreases entries.len(),
{
    if entries.len() > 0 {
        lemma_entries_between_bounds(entries.drop_last(), lo, hi);
        let prev = entries_strictly_between(entries.drop_last(), lo, hi);
        let all = entries_strictly_between(entries, lo, hi);
        assert forall|k: int| 0 <= k < all.len() implies date_lt((#[trigger] all[k]).date, hi) by {
            if k < prev.len() {
                assert(all[k] == prev[k]);
            }
        }
    }
}

proof fn lemma_entries_within_contains(
    entries: Seq<OneTimeTransaction>,
    lo: CivilDate,
    hi: CivilDate,
    i: int,
)
    requires
        0 <= i < entries.len(),
        date_le(lo, entries[i].date),
        date_le(entries[i].date, hi),
    ensures
        entries_within(entries, lo, hi).contains(entry_occurrence(entries[i])),
    decreases entries.len(),
{
    let all = entries_within(entries, lo, hi);
    let t = entries.drop_last();
    if i < entries.len() - 1 {
        assert(t[i] == entries[i]);
        lemma_entries_within_contains(t, lo, hi, i);
        let prev = entries_within(t, lo, hi);
        let k = choose|k: int| 0 <= k < prev.len() && prev[k] == entry_occurrence(entries[i]);
        assert(all[k] == prev[k]);
    } else {
        assert(all[all.len() - 1] == entry_occurrence(entries[i]));
    }
}

proof fn lemma_entries_within_empty(entries: Seq<OneTimeTransaction>, day: CivilDate)
    requires
        forall|i: int| 0 <= i < entries.len() ==> (#[trigger] entries[i]).date != day,
    ensures
        entries_within(entries, day, day).len() == 0,
    decreases entries.len(),
{
    if entries.len() > 0 {
        let t = entries.drop_last();
        assert forall|i: int| 0 <= i < t.len() implies (#[trigger] t[i]).date != day by {
            assert(t[i] == entries[i]);
        }
        lemma_entries_within_empty(t, day);
        assert(entries[entries.len() - 1] == entries.last());
    }
}

// ----- the window -----

proof fn lemma_days_after_later(t: (int, int, int), n: nat)
    requires
        1 <= t.1 <= 12,
    ensures
        1 <= days_after(t, n).1 <= 12,
        days_after(t, n).0 > t.0 || (days_after(t, n).0 == t.0 && (days_after(t, n).1 > t.1 || (
        days_after(t, n).1 == t.1 && days_after(t, n).2 >= t.2))),
    decreases n,
{
    if n > 0 {
        lemma_days_after_later(t, (n - 1) as nat);
    }
}

/// The window never ends before it starts, and a horizon of zero days ends
/// it on the anchor date.
proof fn lemma_window_end(today: CivilDate, days: nat)
    requires
        today.wf(),
    ensures
        date_le(today, window_end(today, days)),
        days == 0 ==> window_end(today, days) == today,
{
    lemma_days_after_later(ymd(today), days);
}

// ----- ordering -----

/// Occurrences that never go backwards in (date, creation instant) order.
pub open spec fn is_ordered(s: Seq<Occurrence>) -> bool {
    forall|i: int, j: int| 0 <= i < j < s.len() ==> !occurrence_lt(#[trigger] s[j], #[trigger] s[i])
}

proof fn lemma_insert_sorted_ordered(s: Seq<Occurrence>, x: Occurrence)
    requires
        is_ordered(s),
    ensures
        is_ordered(insert_sorted(s, x)),
    decreases s.len(),
{
    if s.len() > 0 {
        let t = s.drop_last();
        if occurrence_lt(x, s.last()) {
            assert(is_ordered(t)) by {
                assert forall|i: int, j: int| 0 <= i < j < t.len() implies !occurrence_lt(
                    #[trigger] t[j],
                    #[trigger] t[i],
                ) by {
                    assert(t[i] == s[i] && t[j] == s[j]);
                }
            }
            lemma_insert_sorted_ordered(t, x);
            lemma_insert_sorted_contains(t, x);
            let u = insert_sorted(t, x);
            let r = u.push(s.last());
            assert forall|i: int, j: int| 0 <= i < j < r.len() implies !occurrence_lt(
                #[trigger] r[j],
                #[trigger] r[i],
            ) by {
                if j == r.len() - 1 {
                    assert(u.contains(u[i]));
                    if u[i] != x {
                        let k = choose|k: int| 0 <= k < t.len() && t[k] == u[i];
                        assert(s[k] == u[i]);
                        assert(s[s.len() - 1] == s.last());
                    }
                } else {
                    assert(r[i] == u[i] && r[j] == u[j]);
                }
            }
        } else {
            let r = s.push(x);
            assert forall|i: int, j: int| 0 <= i < j < r.len() implies !occurrence_lt(
                #[trigger] r[j],
                #[trigger] r[i],
            ) by {
                if j == r.len() - 1 {
                    assert(s[s.len() - 1] == s.last());
                    if i < s.len() - 1 {
                        assert(!occurrence_lt(s[s.len() - 1], s[i]));
                    }
                } else {
                    assert(r[i] == s[i] && r[j] == s[j]);
                }
            }
        }
    }
}

proof fn lemma_insert_sorted_multiset(s: Seq<Occurrence>, x: Occurrence)
    ensures
        insert_sorted(s, x).to_multiset() =~= s.to_multiset().insert(x),
    decreases s.len(),
{
    broadcast use vstd::seq_lib::group_to_multiset_ensures;

    if s.len() == 0 {
        assert(s =~= Seq::<Occurrence>::empty());
        assert(insert_sorted(s, x) =~= s.push(x));
    } else {
        let t = s.drop_last();
        assert(s =~= t.push(s.last()));
        if occurrence_lt(x, s.last()) {
            lemma_insert_sorted_multiset(t, x);
        }
    }
}

proof fn lemma_sort_multiset(s: Seq<Occurrence>)
    ensures
        sort_occurrences(s).to_multiset() =~= s.to_multiset(),
    decreases s.len(),
{
    broadcast use vstd::seq_lib::group_to_multiset_ensures;

    if s.len() == 0 {
        assert(s =~= Seq::<Occurrence>::empty());
    } else {
        let t = s.drop_last();
        lemma_sort_multiset(t);
        lemma_insert_sorted_multiset(sort_occurrences(t), s.last());
        assert(s =~= t.push(s.last()));
    }
}

proof fn lemma_sort_ordered(s: Seq<Occurrence>)
    ensures
        is_ordered(sort_occurrences(s)),
    decreases s.len(),
{
    if s.len() > 0 {
        lemma_sort_ordered(s.drop_last());
        lemma_insert_sorted_ordered(sort_occurrences(s.drop_last()), s.last());
    }
}

// ----- running balances -----

/// Sum of the values of the rows' amounts.
pub open spec fn total_value(rows: Seq<TransactionView>) -> int
    decreases rows.len(),
{
    if rows.len() == 0 {
        0
    } else {
        total_value(rows.drop_last()) + rows.last().amount.value()
    }
}

/// Every addition of the walk from `start` over `occ` is exact: decimal
/// addition rounded nothing away.
pub open spec fn additions_exact(start: Amount, occ: Seq<Occurrence>) -> bool
    decreases occ.len(),
{
    if occ.len() == 0 {
        true
    } else {
        &&& additions_exact(start, occ.drop_last())
        &&& match run_balance(start, occ.drop_last()) {
            Some((b, _)) => match decimal_sum(b, occ.last().amount) {
                Some(nb) => nb.value() == b.value() + occ.last().amount.value(),
                None => true,
            },
            None => true,
        }
    }
}

proof fn lemma_run_balance_rows(start: Amount, occ: Seq<Occurrence>)
    ensures
        run_balance(start, occ) matches Some((b, rows)) ==> {
            &&& rows.len() == occ.len()
            &&& forall|k: int|
                0 <= k < rows.len() ==> #[trigger] rows[k] == row_of(occ[k], rows[k].balance_after)
            &&& rows.len() > 0 ==> rows.last().balance_after == b
            &&& additions_exact(start, occ) ==> b.value() - start.value() == total_value(rows)
        },
    decreases occ.len(),
{
    if occ.len() > 0 {
        let t = occ.drop_last();
        lemma_run_balance_rows(start, t);
        if let Some((b, rows)) = run_balance(start, occ) {
            let (pb, prows) = run_balance(start, t).unwrap();
            assert(rows == prows.push(row_of(occ.last(), b)));
            assert(rows.drop_last() =~= prows);
            assert forall|k: int| 0 <= k < rows.len() implies #[trigger] rows[k] == row_of(
                occ[k],
                rows[k].balance_after,
            ) by {
                if k < prows.len() {
                    assert(rows[k] == prows[k]);
                    assert(occ[k] == t[k]);
                }
            }
        }
    }
}

// ----- the guarantees -----

/// Conservation: the balance after the last projected row minus the
/// starting balance is the sum of the projected amounts, wherever decimal
/// addition along the walk is exact.
pub proof fn lemma_conservation(data: CashflowData, today: CivilDate, days: nat)
    ensures
        projection_spec(data, today, days) matches Ok((start, _, rows)) ==> (additions_exact(
            start,
            projected_occurrences(data, today, days),
        ) && rows.len() > 0 ==> rows.last().balance_after.value() - start.value() == total_value(
            rows,
        )),
{
    if let Ok((start, _, rows)) = projection_spec(data, today, days) {
        lemma_run_balance_rows(start, projected_occurrences(data, today, days));
    }
}

/// Clamping: a rule for day 31 (or any day past the end of February) falls
/// on the last day of February, the 28th in a common year and the 29th in a
/// leap year, whenever the expansion window contains that day.
pub proof fn lemma_february_clamping(
    rule: RecurringTransaction,
    start: CivilDate,
    end: CivilDate,
    year: i32,
)
    requires
        start.wf(),
        end.wf(),
        rule.day_of_month >= 29,
        MIN_YEAR <= year <= MAX_YEAR,
        date_lt(start, february_end(year)),
        date_le(february_end(year), end),
    ensures
        expand_spec(rule, start, end).contains(rule_occurrence(rule, february_end(year))),
        february_end(year).day == if is_leap_year(year as int) {
            29int
        } else {
            28
        },
{
    let d = february_end(year);
    let target = rule.day_of_month as int;
    lemma_dates_from_contains(target, start, end, start, d);
    let dates = dates_from(target, start, end, start);
    let k = choose|k: int| 0 <= k < dates.len() && dates[k] == d;
    assert(expand_spec(rule, start, end)[k] == rule_occurrence(rule, d));
}

/// The last day of February of `year`.
pub open spec fn february_end(year: i32) -> CivilDate {
    CivilDate {
        year,
        month: 2,
        day: if is_leap_year(year as int) {
            29
        } else {
            28
        },
    }
}

/// Order: the rows come in the order of their occurrences, which are the
/// window's occurrences, each as often as it occurs, and never go backwards
/// by date and, on one date, by creation instant; the projection is a
/// function of ledger, anchor date and horizon alone, so equal inputs give
/// equal rows in equal order.
pub proof fn lemma_projection_ordered(data: CashflowData, today: CivilDate, days: nat)
    ensures
        projected_occurrences(data, today, days).to_multiset() == upcoming_occurrences(
            data,
            today,
            window_end(today, days),
        ).to_multiset(),
        is_ordered(projected_occurrences(data, today, days)),
        projection_spec(data, today, days) matches Ok((_, _, rows)) ==> {
            let occ = projected_occurrences(data, today, days);
            &&& rows.len() == occ.len()
            &&& forall|k: int|
                0 <= k < rows.len() ==> #[trigger] rows[k] == row_of(occ[k], rows[k].balance_after)
            &&& forall|i: int, j: int|
                0 <= i < j < rows.len() ==> date_le(#[trigger] rows[i].date, #[trigger] rows[j].date)
        },
{
    let occ = projected_occurrences(data, today, days);
    lemma_sort_ordered(upcoming_occurrences(data, today, window_end(today, days)));
    lemma_sort_multiset(upcoming_occurrences(data, today, window_end(today, days)));
    if let Ok((start, _, rows)) = projection_spec(data, today, days) {
        lemma_run_balance_rows(start, occ);
        assert forall|i: int, j: int| 0 <= i < j < rows.len() implies date_le(
            #[trigger] rows[i].date,
            #[trigger] rows[j].date,
        ) by {
            assert(rows[i] == row_of(occ[i], rows[i].balance_after));
            assert(rows[j] == row_of(occ[j], rows[j].balance_after));
            assert(!occurrence_lt(occ[j], occ[i]));
        }
    }
}

/// The snapshot the projection starts from.
pub open spec fn anchor_snapshot(data: CashflowData) -> BalanceSnapshot {
    data.balance_snapshots@[latest_index(data.balance_snapshots@)]
}

/// Anchor date, recurring side: an active rule's occurrence on the anchor
/// date is among the occurrences replayed into the starting balance (when
/// the snapshot is older than the anchor date), and no recurring occurrence
/// of the window falls on the anchor date or before it.
pub proof fn lemma_anchor_date_recurring(data: CashflowData, today: CivilDate, days: nat, i: int)
    requires
        ledger_wf(data),
        today.wf(),
        data.balance_snapshots@.len() > 0,
        date_lt(anchor_snapshot(data).date, today),
        0 <= i < data.recurring@.len(),
        data.recurring@[i].active,
        month_occurrence(today.year as int, today.month as int, data.recurring@[i].day_of_month as int)
            == Some(today),
    ensures
        sort_occurrences(past_occurrences(data, anchor_snapshot(data).date, today)).contains(
            rule_occurrence(data.recurring@[i], today),
        ),
        forall|k: int|
            0 <= k < projected_occurrences(data, today, days).len() && (#[trigger] projected_occurrences(
                data,
                today,
                days,
            )[k]).is_recurring ==> date_lt(today, projected_occurrences(data, today, days)[k].date),
{
    let snap = anchor_snapshot(data);
    crate::projection::lemma_latest_index_range(data.balance_snapshots@);
    let rule = data.recurring@[i];
    let target = rule.day_of_month as int;
    lemma_dates_from_contains(target, snap.date, today, snap.date, today);
    let dates = dates_from(target, snap.date, today, snap.date);
    let k = choose|k: int| 0 <= k < dates.len() && dates[k] == today;
    let o = rule_occurrence(rule, today);
    assert(expand_spec(rule, snap.date, today)[k] == o);
    lemma_recurring_contains(data.recurring@, snap.date, today, i, o);
    let rec = recurring_occurrences(data.recurring@, snap.date, today);
    let past = past_occurrences(data, snap.date, today);
    let m = choose|m: int| 0 <= m < rec.len() && rec[m] == o;
    assert(past[m] == o);
    lemma_sort_contains(past);
    let end = window_end(today, days);
    let up = upcoming_occurrences(data, today, end);
    let proj = projected_occurrences(data, today, days);
    lemma_sort_contains(up);
    lemma_recurring_is_recurring(data.recurring@, today, end);
    lemma_entries_within_bounds(data.one_time@, today, end);
    let urec = recurring_occurrences(data.recurring@, today, end);
    assert forall|k: int| 0 <= k < proj.len() && (#[trigger] proj[k]).is_recurring implies date_lt(
        today,
        proj[k].date,
    ) by {
        assert(proj.contains(proj[k]));
        let j = choose|j: int| 0 <= j < up.len() && up[j] == proj[k];
        if j >= urec.len() {
            assert(up[j] == entries_within(data.one_time@, today, end)[j - urec.len()]);
        }
    }
}

/// Anchor date, one-time side: an entry dated on the anchor date is among
/// the projected occurrences, every one of which is dated on the anchor date
/// or later, and it is not among the occurrences replayed into the starting
/// balance.
pub proof fn lemma_anchor_date_one_time(data: CashflowData, today: CivilDate, days: nat, j: int)
    requires
        ledger_wf(data),
        today.wf(),
        data.balance_snapshots@.len() > 0,
        0 <= j < data.one_time@.len(),
        data.one_time@[j].date == today,
    ensures
        projected_occurrences(data, today, days).contains(entry_occurrence(data.one_time@[j])),
        forall|k: int|
            0 <= k < projected_occurrences(data, today, days).len() ==> date_le(
                today,
                (#[trigger] projected_occurrences(data, today, days)[k]).date,
            ),
        !sort_occurrences(past_occurrences(data, anchor_snapshot(data).date, today)).contains(
            entry_occurrence(data.one_time@[j]),
        ),
{
    let e = data.one_time@[j];
    let o = entry_occurrence(e);
    let end = window_end(today, days);
    lemma_window_end(today, days);
    lemma_entries_within_contains(data.one_time@, today, end, j);
    let up = upcoming_occurrences(data, today, end);
    let urec = recurring_occurrences(data.recurring@, today, end);
    let ent = entries_within(data.one_time@, today, end);
    let m = choose|m: int| 0 <= m < ent.len() && ent[m] == o;
    assert(up[urec.len() + m] == o);
    lemma_sort_contains(up);
    let proj = projected_occurrences(data, today, days);
    lemma_recurring_is_recurring(data.recurring@, today, end);
    lemma_entries_within_bounds(data.one_time@, today, end);
    assert forall|k: int| 0 <= k < proj.len() implies date_le(today, (#[trigger] proj[k]).date) by {
        assert(proj.contains(proj[k]));
        let q = choose|q: int| 0 <= q < up.len() && up[q] == proj[k];
        if q >= urec.len() {
            assert(up[q] == ent[q - urec.len()]);
        } else {
            assert(up[q] == urec[q]);
        }
    }
    let snap = anchor_snapshot(data);
    let past = past_occurrences(data, snap.date, today);
    let prec = recurring_occurrences(data.recurring@, snap.date, today);
    let pent = entries_strictly_between(data.one_time@, snap.date, today);
    lemma_sort_contains(past);
    lemma_recurring_is_recurring(data.recurring@, snap.date, today);
    lemma_entries_between_bounds(data.one_time@, snap.date, today);
    if past.contains(o) {
        let q = choose|q: int| 0 <= q < past.len() && past[q] == o;
        if q >= prec.len() {
            assert(past[q] == pent[q - prec.len()]);
        } else {
            assert(past[q] == prec[q]);
        }
    }
}

/// Inactive rules: two ledgers that differ only in their inactive recurring
/// rules give the same projection, so an inactive rule contributes to
/// neither the starting balance nor the rows.
pub proof fn lemma_inactive_rules_ignored(a: CashflowData, b: CashflowData, today: CivilDate, days: nat)
    requires
        a.one_time@ == b.one_time@,
        a.balance_snapshots@ == b.balance_snapshots@,
        active_rules(a.recurring@) == active_rules(b.recurring@),
    ensures
        projection_spec(a, today, days) == projection_spec(b, today, days),
{
    if a.balance_snapshots@.len() > 0 {
        let snap = anchor_snapshot(a);
        let end = window_end(today, days);
        lemma_recurring_active_only(a.recurring@, snap.date, today);
        lemma_recurring_active_only(b.recurring@, snap.date, today);
        lemma_recurring_active_only(a.recurring@, today, end);
        lemma_recurring_active_only(b.recurring@, today, end);
        assert(past_occurrences(a, snap.date, today) == past_occurrences(b, snap.date, today));
        assert(reconciled_balance(a, snap, today) == reconciled_balance(b, snap, today));
        assert(upcoming_occurrences(a, today, end) == upcoming_occurrences(b, today, end));
    }
}

/// Empty horizon: a horizon of zero days from the date of the latest
/// snapshot yields no rows and starts from the snapshot balance, when no
/// one-time entry is dated on that day (such an entry is a row of its own).
pub proof fn lemma_empty_horizon(data: CashflowData, today: CivilDate)
    requires
        today.wf(),
        data.balance_snapshots@.len() > 0,
        anchor_snapshot(data).date == today,
        forall|i: int| 0 <= i < data.one_time@.len() ==> (#[trigger] data.one_time@[i]).date != today,
    ensures
        projection_spec(data, today, 0) == Projection::Ok(
            (anchor_snapshot(data).balance, today, seq![]),
        ),
{
    lemma_window_end(today, 0);
    let rec = recurring_occurrences(data.recurring@, today, today);
    lemma_recurring_is_recurring(data.recurring@, today, today);
    if rec.len() > 0 {
        assert(date_lt(today, rec[0].date) && date_le(rec[0].date, today));
    }
    lemma_entries_within_empty(data.one_time@, today);
    let up = upcoming_occurrences(data, today, today);
    assert(up =~= seq![]);
    assert(projected_occurrences(data, today, 0) =~= seq![]);
}

} // verus!
