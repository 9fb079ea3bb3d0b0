//! The projection engine: expanding recurring rules into dated occurrences,
//! reconciling the latest snapshot forward to the anchor date, and building
//! the ordered running-balance sequence over the horizon.
use crate::amount::{checked_add, decimal_sum, Amount};
use crate::calendar::{
    date_le, date_lt, dates_from, days_after, get_transaction_date_in_month, last_date,
    lemma_next_month_spec, month_index, month_occurrence, next_month, next_month_spec, ymd,
    CivilDate, MAX_YEAR,
};
use crate::models::{
    timestamp_lt, BalanceSnapshot, CashflowData, OneTimeTransaction, RecurringTransaction,
    Timestamp, TransactionView,
};
use vstd::prelude::*;

verus! {

/// Why a projection could not be made.
#[derive(Clone, Copy, Debug, PartialEq, Eq, Structural)]
pub enum ProjectionError {
    /// The ledger holds no balance snapshot to start from.
    NoBalanceAnchor,
    /// A running balance left the range of decimal amounts.
    AmountOverflow,
}

/// A dated transaction, materialised from a recurring rule or taken from a
/// one-time entry.
#[derive(Clone, Debug, PartialEq)]
pub struct Occurrence {
    pub date: CivilDate,
    pub amount: Amount,
    pub description: String,
    pub is_recurring: bool,
    pub source_id: u128,
    pub created_at: Timestamp,
}

/// The order of occurrences: by date, then by creation instant.
pub open spec fn occurrence_lt(a: Occurrence, b: Occurrence) -> bool {
    date_lt(a.date, b.date) || (a.date == b.date && timestamp_lt(a.created_at, b.created_at))
}

/// The occurrence of `rule` on `date`.
pub open spec fn rule_occurrence(rule: RecurringTransaction, date: CivilDate) -> Occurrence {
    Occurrence {
        date,
        amount: rule.amount,
        description: rule.description,
        is_recurring: true,
        source_id: rule.id,
        created_at: rule.created_at,
    }
}

/// The occurrence that a one-time entry stands for.
pub open spec fn entry_occurrence(e: OneTimeTransaction) -> Occurrence {
    Occurrence {
        date: e.date,
        amount: e.amount,
        description: e.description,
        is_recurring: false,
        source_id: e.id,
        created_at: e.created_at,
    }
}

/// The occurrences of `rule` in `(start, end]`, in date order.
pub open spec fn expand_spec(rule: RecurringTransaction, start: CivilDate, end: CivilDate) -> Seq<
    Occurrence,
> {
    dates_from(rule.day_of_month as int, start, end, start).map_values(
        |d: CivilDate| rule_occurrence(rule, d),
    )
}

/// The occurrences in `(start, end]` of every active rule, rule by rule.
pub open spec fn recurring_occurrences(
    rules: Seq<RecurringTransaction>,
    start: CivilDate,
    end: CivilDate,
) -> Seq<Occurrence>
    decreases rules.len(),
{
    if rules.len() == 0 {
        seq![]
    } else {
        let prev = recurring_occurrences(rules.drop_last(), start, end);
        if rules.last().active {
            prev + expand_spec(rules.last(), start, end)
        } else {
            prev
        }
    }
}

/// The one-time entries dated strictly between `lo` and `hi`, in ledger order.
pub open spec fn entries_strictly_between(
    entries: Seq<OneTimeTransaction>,
    lo: CivilDate,
    hi: CivilDate,
) -> Seq<Occurrence>
    decreases entries.len(),
{
    if entries.len() == 0 {
        seq![]
    } else {
        let prev = entries_strictly_between(entries.drop_last(), lo, hi);
        let e = entries.last();
        if date_lt(lo, e.date) && date_lt(e.date, hi) {
            prev.push(entry_occurrence(e))
        } else {
            prev
        }
    }
}

/// The one-time entries dated from `lo` through `hi`, in ledger order.
pub open spec fn entries_within(entries: Seq<OneTimeTransaction>, lo: CivilDate, hi: CivilDate) -> Seq<
    Occurrence,
>
    decreases entries.len(),
{
    if entries.len() == 0 {
        seq![]
    } else {
        let prev = entries_within(entries.drop_last(), lo, hi);
        let e = entries.last();
        if date_le(lo, e.date) && date_le(e.date, hi) {
            prev.push(entry_occurrence(e))
        } else {
            prev
        }
    }
}

/// Inserts `x` after every element of `s` that does not come after it.
pub open spec fn insert_sorted(s: Seq<Occurrence>, x: Occurrence) -> Seq<Occurrence>
    decreases s.len(),
{
    if s.len() == 0 {
        seq![x]
    } else if occurrence_lt(x, s.last()) {
        insert_sorted(s.drop_last(), x).push(s.last())
    } else {
        s.push(x)
    }
}

/// `s` ordered by date, then creation instant; equal keys keep their order.
pub open spec fn sort_occurrences(s: Seq<Occurrence>) -> Seq<Occurrence>
    decreases s.len(),
{
    if s.len() == 0 {
        seq![]
    } else {
        insert_sorted(sort_occurrences(s.drop_last()), s.last())
    }
}

/// The row for an occurrence with the balance after it.
pub open spec fn row_of(o: Occurrence, balance_after: Amount) -> TransactionView {
    TransactionView {
        date: o.date,
        day_of_month: o.date.day as u8,
        description: o.description,
        amount: o.amount,
        is_one_time: !o.is_recurring,
        balance_after,
    }
}

/// Walks `occ` from `start`, adding each amount: the final balance and one
/// row per occurrence, or `None` if an addition overflows.
pub open spec fn run_balance(start: Amount, occ: Seq<Occurrence>) -> Option<
    (Amount, Seq<TransactionView>),
>
    decreases occ.len(),
{
    if occ.len() == 0 {
        Some((start, seq![]))
    } else {
        match run_balance(start, occ.drop_last()) {
            Some((b, rows)) => match decimal_sum(b, occ.last().amount) {
                Some(nb) => Some((nb, rows.push(row_of(occ.last(), nb)))),
                None => None,
            },
            None => None,
        }
    }
}

/// Index of the snapshot with the latest date; the first of them on a tie.
pub open spec fn latest_index(snaps: Seq<BalanceSnapshot>) -> int
    decreases snaps.len(),
{
    if snaps.len() <= 1 {
        0
    } else {
        let i = latest_index(snaps.drop_last());
        if date_lt(snaps[i].date, snaps.last().date) {
            snaps.len() - 1
        } else {
            i
        }
    }
}

/// What happened after the snapshot date and before the anchor date:
/// recurring occurrences up to and including the anchor date, one-time
/// entries strictly before it.
pub open spec fn past_occurrences(data: CashflowData, since: CivilDate, today: CivilDate) -> Seq<
    Occurrence,
> {
    recurring_occurrences(data.recurring@, since, today) + entries_strictly_between(
        data.one_time@,
        since,
        today,
    )
}

/// The balance on the anchor date: the snapshot balance with every past
/// occurrence added in order.
pub open spec fn reconciled_balance(data: CashflowData, snapshot: BalanceSnapshot, today: CivilDate) -> Option<
    Amount,
> {
    if date_lt(snapshot.date, today) {
        match run_balance(snapshot.balance, sort_occurrences(past_occurrences(data, snapshot.date, today))) {
            Some((b, _)) => Some(b),
            None => None,
        }
    } else {
        Some(snapshot.balance)
    }
}

/// The last day of the window that starts on `today` and spans `days` days;
/// the last representable date when the window reaches past it.
pub open spec fn window_end(today: CivilDate, days: nat) -> CivilDate {
    let t = days_after(ymd(today), days);
    if t.0 <= MAX_YEAR {
        CivilDate { year: t.0 as i32, month: t.1 as u32, day: t.2 as u32 }
    } else {
        last_date()
    }
}

/// What the window shows: recurring occurrences after the anchor date, and
/// one-time entries from the anchor date on, through the window's end.
pub open spec fn upcoming_occurrences(data: CashflowData, today: CivilDate, end: CivilDate) -> Seq<
    Occurrence,
> {
    recurring_occurrences(data.recurring@, today, end) + entries_within(data.one_time@, today, end)
}

/// The projected occurrences in the order they are applied.
pub open spec fn projected_occurrences(data: CashflowData, today: CivilDate, days: nat) -> Seq<
    Occurrence,
> {
    sort_occurrences(upcoming_occurrences(data, today, window_end(today, days)))
}

/// The balance on the anchor date, the anchor date, and the rows of the
/// window; or why there is none.
pub type Projection = Result<(Amount, CivilDate, Seq<TransactionView>), ProjectionError>;

/// The whole projection: the balance on the anchor date, the anchor date,
/// and the rows of the window.
pub open spec fn projection_spec(data: CashflowData, today: CivilDate, days: nat) -> Projection {
    if data.balance_snapshots@.len() == 0 {
        Err(ProjectionError::NoBalanceAnchor)
    } else {
        let snapshot = data.balance_snapshots@[latest_index(data.balance_snapshots@)];
        match reconciled_balance(data, snapshot, today) {
            None => Err(ProjectionError::AmountOverflow),
            Some(start) => match run_balance(start, projected_occurrences(data, today, days)) {
                None => Err(ProjectionError::AmountOverflow),
                Some((_, rows)) => Ok((start, today, rows)),
            },
        }
    }
}

/// Every value in the ledger is well formed.
pub open spec fn ledger_wf(data: CashflowData) -> bool {
    &&& forall|i: int|
        0 <= i < data.recurring@.len() ==> (#[trigger] data.recurring@[i]).amount.wf()
    &&& forall|i: int|
        0 <= i < data.one_time@.len() ==> {
            &&& (#[trigger] data.one_time@[i]).amount.wf()
            &&& data.one_time@[i].date.wf()
        }
    &&& forall|i: int|
        0 <= i < data.balance_snapshots@.len() ==> {
            &&& (#[trigger] data.balance_snapshots@[i]).balance.wf()
            &&& data.balance_snapshots@[i].date.wf()
        }
}

/// Checks that every amount and date in the ledger is well formed.
pub fn ledger_is_valid(data: &CashflowData) -> (r: bool)
    ensures
        r == ledger_wf(*data),
{
    let mut i: usize = 0;
    while i < data.recurring.len()
        invariant
            i <= data.recurring@.len(),
            forall|k: int| 0 <= k < i ==> (#[trigger] data.recurring@[k]).amount.wf(),
        decreases data.recurring@.len() - i,
    {
        if !data.recurring[i].amount.is_valid() {
            return false;
        }
        i = i + 1;
    }
    let mut i: usize = 0;
    while i < data.one_time.len()
        invariant
            i <= data.one_time@.len(),
            forall|k: int|
                0 <= k < i ==> (#[trigger] data.one_time@[k]).amount.wf() && data.one_time@[k].date.wf(),
        decreases data.one_time@.len() - i,
    {
        if !data.one_time[i].amount.is_valid() || !data.one_time[i].date.is_valid() {
            return false;
        }
        i = i + 1;
    }
    let mut i: usize = 0;
    while i < data.balance_snapshots.len()
        invariant
            i <= data.balance_snapshots@.len(),
            forall|k: int|
                0 <= k < i ==> (#[trigger] data.balance_snapshots@[k]).balance.wf()
                    && data.balance_snapshots@[k].date.wf(),
        decreases data.balance_snapshots@.len() - i,
    {
        if !data.balance_snapshots[i].balance.is_valid() || !data.balance_snapshots[i].date.is_valid() {
            return false;
        }
        i = i + 1;
    }
    true
}

pub open spec fn occurrences_wf(s: Seq<Occurrence>) -> bool {
    forall|i: int| 0 <= i < s.len() ==> (#[trigger] s[i]).amount.wf() && s[i].date.wf()
}

/// Orders two occurrences by date, then creation instant.
pub fn occurrence_is_before(a: &Occurrence, b: &Occurrence) -> (r: bool)
    ensures
        r == occurrence_lt(*a, *b),
{
    a.date.is_before(&b.date) || (a.date == b.date && a.created_at.is_before(&b.created_at))
}

/// Finds the most recent balance snapshot: the first one with the latest date.
pub fn find_latest_balance_snapshot(data: &CashflowData) -> (r: Result<
    &BalanceSnapshot,
    ProjectionError,
>)
    ensures
        r is Err <==> data.balance_snapshots@.len() == 0,
        r matches Err(e) ==> e == ProjectionError::NoBalanceAnchor,
        r matches Ok(s) ==> *s == data.balance_snapshots@[latest_index(data.balance_snapshots@)],
{
    let snaps = &data.balance_snapshots;
    if snaps.len() == 0 {
        return Err(ProjectionError::NoBalanceAnchor);
    }
    let mut best: usize = 0;
    let mut i: usize = 1;
    while i < snaps.len()
        invariant
            1 <= i <= snaps@.len(),
            best < i,
            best == latest_index(snaps@.take(i as int)),
        decreases snaps@.len() - i,
    {
        assert(snaps@.take(i + 1).drop_last() =~= snaps@.take(i as int));
        if snaps[best].date.is_before(&snaps[i].date) {
            best = i;
        }
        i = i + 1;
    }
    assert(snaps@.take(i as int) =~= snaps@);
    Ok(&snaps[best])
}

/// Every date a rule's expansion yields is a valid date.
proof fn lemma_dates_from_wf(target: int, start: CivilDate, end: CivilDate, pointer: CivilDate)
    requires
        pointer.wf(),
    ensures
        forall|i: int|
            0 <= i < dates_from(target, start, end, pointer).len() ==> (#[trigger] dates_from(
                target,
                start,
                end,
                pointer,
            )[i]).wf(),
    decreases month_index(end) - month_index(pointer),
{
    let all = dates_from(target, start, end, pointer);
    let here = match month_occurrence(pointer.year as int, pointer.month as int, target) {
        Some(d) => if date_lt(start, d) && date_le(d, end) {
            seq![d]
        } else {
            seq![]
        },
        None => seq![],
    };
    assert forall|i: int| 0 <= i < here.len() implies (#[trigger] here[i]).wf() by {
    }
    if pointer.wf() && end.wf() && month_index(pointer) < month_index(end) {
        lemma_next_month_spec(pointer);
        let rest = dates_from(target, start, end, next_month_spec(pointer));
        lemma_dates_from_wf(target, start, end, next_month_spec(pointer));
        assert(all == here + rest);
        assert forall|i: int| 0 <= i < all.len() implies (#[trigger] all[i]).wf() by {
            if i < here.len() {
                assert(all[i] == here[i]);
            } else {
                assert(all[i] == rest[i - here.len()]);
            }
        }
    } else {
        assert(all == here);
    }
}

/// Generates the occurrences of a recurring rule in `(start_date, end_date]`.
/// The month pointer starts at `start_date` and steps with `next_month`, so
/// it keeps its own day number; each month's date is the rule's day clamped
/// to that month.
pub fn generate_recurring_transactions(
    recurring: &RecurringTransaction,
    start_date: CivilDate,
    end_date: CivilDate,
) -> (r: Vec<Occurrence>)
    requires
        start_date.wf(),
        end_date.wf(),
    ensures
        r@ == expand_spec(*recurring, start_date, end_date),
{
    let ghost target = recurring.day_of_month as int;
    let ghost f = |d: CivilDate| rule_occurrence(*recurring, d);
    let mut transactions: Vec<Occurrence> = Vec::new();
    let mut current = start_date;
    let ghost mut done: Seq<CivilDate> = seq![];
    loop
        invariant_except_break
            done + dates_from(target, start_date, end_date, current) == dates_from(
                target,
                start_date,
                end_date,
                start_date,
            ),
        invariant
            current.wf(),
            start_date.wf(),
            end_date.wf(),
            target == recurring.day_of_month as int,
            f == (|d: CivilDate| rule_occurrence(*recurring, d)),
            transactions@ == done.map_values(f),
        ensures
            transactions@ == expand_spec(*recurring, start_date, end_date),
        decreases month_index(end_date) - month_index(current),
    {
        let ghost here: Seq<CivilDate> = match month_occurrence(
            current.year as int,
            current.month as int,
            target,
        ) {
            Some(d) => if date_lt(start_date, d) && date_le(d, end_date) {
                seq![d]
            } else {
                seq![]
            },
            None => seq![],
        };
        if let Some(txn_date) = get_transaction_date_in_month(current, recurring.day_of_month) {
            if start_date.is_before(&txn_date) && !end_date.is_before(&txn_date) {
                let occ = Occurrence {
                    date: txn_date,
                    amount: recurring.amount,
                    description: recurring.description.clone(),
                    is_recurring: true,
                    source_id: recurring.id,
                    created_at: recurring.created_at,
                };
                transactions.push(occ);
            }
        }
        proof {
            let old_done = done;
            done = done + here;
            assert(transactions@ =~= done.map_values(f));
        }
        let past_end = !(current.year < end_date.year || (current.year == end_date.year
            && current.month < end_date.month));
        if past_end {
            assert(done =~= dates_from(target, start_date, end_date, start_date));
            assert(transactions@ =~= expand_spec(*recurring, start_date, end_date));
            break ;
        }
        proof {
            lemma_next_month_spec(current);
            assert(done + dates_from(target, start_date, end_date, next_month_spec(current))
                =~= dates_from(target, start_date, end_date, start_date));
        }
        current = next_month(current);
    }
    transactions
}

/// Inserting after the last element that does not come after `x` is
/// `insert_sorted`, when everything from `j` on comes after `x`.
proof fn lemma_insert_at(s: Seq<Occurrence>, x: Occurrence, j: int)
    requires
        0 <= j <= s.len(),
        forall|k: int| j <= k < s.len() ==> occurrence_lt(x, #[trigger] s[k]),
        j == 0 || !occurrence_lt(x, s[j - 1]),
    ensures
        insert_sorted(s, x) == s.take(j) + seq![x] + s.skip(j),
    decreases s.len(),
{
    if s.len() == j {
        if j == 0 {
            assert(s.take(j) + seq![x] + s.skip(j) =~= seq![x]);
        } else {
            assert(s.take(j) + seq![x] + s.skip(j) =~= s.push(x));
        }
    } else {
        let t = s.drop_last();
        assert forall|k: int| j <= k < t.len() implies occurrence_lt(x, #[trigger] t[k]) by {
            assert(t[k] == s[k]);
        }
        if j > 0 {
            assert(t[j - 1] == s[j - 1]);
        }
        lemma_insert_at(t, x, j);
        assert((t.take(j) + seq![x] + t.skip(j)).push(s.last()) =~= s.take(j) + seq![x] + s.skip(
            j,
        ));
    }
}

/// Sorts occurrences by date, then creation instant, keeping the ledger
/// order of occurrences with equal keys.
pub fn sort_occurrences_exec(v: Vec<Occurrence>) -> (r: Vec<Occurrence>)
    ensures
        r@ == sort_occurrences(v@),
{
    let ghost orig = v@;
    let mut rest = v;
    let mut sorted: Vec<Occurrence> = Vec::new();
    let ghost mut k: int = 0;
    while rest.len() > 0
        invariant
            0 <= k <= orig.len(),
            rest@ == orig.skip(k),
            sorted@ == sort_occurrences(orig.take(k)),
        decreases rest@.len(),
    {
        let x = rest.remove(0);
        let mut j = sorted.len();
        while j > 0
            invariant
                j <= sorted@.len(),
                forall|m: int| j <= m < sorted@.len() ==> occurrence_lt(x, #[trigger] sorted@[m]),
            ensures
                j <= sorted@.len(),
                forall|m: int| j <= m < sorted@.len() ==> occurrence_lt(x, #[trigger] sorted@[m]),
                j == 0 || !occurrence_lt(x, sorted@[j - 1]),
            decreases j,
        {
            if !occurrence_is_before(&x, &sorted[j - 1]) {
                break ;
            }
            j = j - 1;
        }
        proof {
            lemma_insert_at(sorted@, x, j as int);
            assert(orig.take(k + 1).drop_last() =~= orig.take(k));
            assert(orig.take(k + 1).last() == x);
        }
        sorted.insert(j, x);
        proof {
            assert(sorted@ =~= sort_occurrences(orig.take(k + 1)));
            k = k + 1;
            assert(rest@ =~= orig.skip(k));
        }
    }
    assert(orig.take(k) =~= orig);
    sorted
}

/// The occurrences of every active rule in `(start, end]`, rule by rule.
fn collect_recurring(rules: &Vec<RecurringTransaction>, start: CivilDate, end: CivilDate) -> (r: Vec<
    Occurrence,
>)
    requires
        start.wf(),
        end.wf(),
    ensures
        r@ == recurring_occurrences(rules@, start, end),
{
    let mut out: Vec<Occurrence> = Vec::new();
    let mut i: usize = 0;
    while i < rules.len()
        invariant
            i <= rules@.len(),
            start.wf(),
            end.wf(),
            out@ == recurring_occurrences(rules@.take(i as int), start, end),
        decreases rules@.len() - i,
    {
        assert(rules@.take(i + 1).drop_last() =~= rules@.take(i as int));
        let rule = &rules[i];
        if rule.active {
            let mut generated = generate_recurring_transactions(rule, start, end);
            out.append(&mut generated);
        }
        i = i + 1;
    }
    assert(rules@.take(i as int) =~= rules@);
    out
}

/// The occurrence that a one-time entry stands for.
fn occurrence_of_entry(e: &OneTimeTransaction) -> (r: Occurrence)
    ensures
        r == entry_occurrence(*e),
{
    Occurrence {
        date: e.date,
        amount: e.amount,
        description: e.description.clone(),
        is_recurring: false,
        source_id: e.id,
        created_at: e.created_at,
    }
}

/// Appends the one-time entries dated strictly between `lo` and `hi`, or,
/// when `inclusive`, from `lo` through `hi`.
fn collect_entries(
    entries: &Vec<OneTimeTransaction>,
    lo: CivilDate,
    hi: CivilDate,
    inclusive: bool,
    out: &mut Vec<Occurrence>,
)
    ensures
        inclusive ==> final(out)@ == old(out)@ + entries_within(entries@, lo, hi),
        !inclusive ==> final(out)@ == old(out)@ + entries_strictly_between(entries@, lo, hi),
{
    let ghost base = out@;
    let mut i: usize = 0;
    while i < entries.len()
        invariant
            i <= entries@.len(),
            inclusive ==> out@ == base + entries_within(entries@.take(i as int), lo, hi),
            !inclusive ==> out@ == base + entries_strictly_between(entries@.take(i as int), lo, hi),
        decreases entries@.len() - i,
    {
        assert(entries@.take(i + 1).drop_last() =~= entries@.take(i as int));
        let e = &entries[i];
        let keep = if inclusive {
            !e.date.is_before(&lo) && !hi.is_before(&e.date)
        } else {
            lo.is_before(&e.date) && e.date.is_before(&hi)
        };
        if keep {
            out.push(occurrence_of_entry(e));
        }
        proof {
            if inclusive {
                assert(out@ =~= base + entries_within(entries@.take(i + 1), lo, hi));
            } else {
                assert(out@ =~= base + entries_strictly_between(entries@.take(i + 1), lo, hi));
            }
        }
        i = i + 1;
    }
    assert(entries@.take(i as int) =~= entries@);
}

/// A failed addition stays failed for every longer walk.
proof fn lemma_run_balance_prefix(start: Amount, s: Seq<Occurrence>, i: int)
    requires
        0 <= i <= s.len(),
        run_balance(start, s.take(i)) is None,
    ensures
        run_balance(start, s) is None,
    decreases s.len(),
{
    if s.len() == i {
        assert(s.take(i) =~= s);
    } else {
        assert(s.drop_last().take(i) =~= s.take(i));
        lemma_run_balance_prefix(start, s.drop_last(), i);
    }
}


/// Walks `occ` from `start`, adding each amount in order: the final balance
/// and one row per occurrence with the balance after it.
pub fn running_balance(start: Amount, occ: Vec<Occurrence>) -> (r: Result<
    (Amount, Vec<TransactionView>),
    ProjectionError,
>)
    requires
        start.wf(),
        occurrences_wf(occ@),
    ensures
        r matches Ok((b, rows)) ==> run_balance(start, occ@) == Some((b, rows@)) && b.wf(),
        r matches Err(e) ==> e == ProjectionError::AmountOverflow && run_balance(start, occ@) is None,
{
    let ghost orig = occ@;
    let mut rest = occ;
    let mut balance = start;
    let mut rows: Vec<TransactionView> = Vec::new();
    let ghost mut k: int = 0;
    while rest.len() > 0
        invariant
            orig == occ@,
            0 <= k <= orig.len(),
            rest@ == orig.skip(k),
            occurrences_wf(orig),
            balance.wf(),
            run_balance(start, orig.take(k)) == Some((balance, rows@)),
        decreases rest@.len(),
    {
        let o = rest.remove(0);
        proof {
            assert(orig.take(k + 1).drop_last() =~= orig.take(k));
            assert(orig.take(k + 1).last() == o);
            assert(orig[k] == o);
        }
        match checked_add(balance, o.amount) {
            Some(nb) => {
                balance = nb;
                rows.push(
                    TransactionView {
                        date: o.date,
                        day_of_month: o.date.day as u8,
                        description: o.description,
                        amount: o.amount,
                        is_one_time: !o.is_recurring,
                        balance_after: nb,
                    },
                );
                proof {
                    k = k + 1;
                    assert(rest@ =~= orig.skip(k));
                }
            },
            None => {
                proof {
                    lemma_run_balance_prefix(start, orig, k + 1);
                }
                return Err(ProjectionError::AmountOverflow);
            },
        }
    }
    assert(orig.take(k) =~= orig);
    Ok((balance, rows))
}

/// `insert_sorted` adds `x` and keeps every element of `s`.
pub proof fn lemma_insert_sorted_contains(s: Seq<Occurrence>, x: Occurrence)
    ensures
        insert_sorted(s, x).len() == s.len() + 1,
        forall|y: Occurrence| #[trigger]
            insert_sorted(s, x).contains(y) <==> (s.contains(y) || y == x),
    decreases s.len(),
{
    if s.len() == 0 {
        assert(insert_sorted(s, x) =~= seq![x]);
        assert(seq![x][0] == x);
    } else if occurrence_lt(x, s.last()) {
        let t = s.drop_last();
        lemma_insert_sorted_contains(t, x);
        let r = insert_sorted(s, x);
        assert(r == insert_sorted(t, x).push(s.last()));
        assert forall|y: Occurrence| #[trigger] r.contains(y) <==> (s.contains(y) || y == x) by {
            if r.contains(y) {
                let i = choose|i: int| 0 <= i < r.len() && r[i] == y;
                if i < r.len() - 1 {
                    assert(insert_sorted(t, x)[i] == y);
                    assert(insert_sorted(t, x).contains(y));
                    if y != x {
                        let j = choose|j: int| 0 <= j < t.len() && t[j] == y;
                        assert(s[j] == y);
                    }
                } else {
                    assert(s[s.len() - 1] == y);
                }
            }
            if s.contains(y) {
                let j = choose|j: int| 0 <= j < s.len() && s[j] == y;
                if j < s.len() - 1 {
                    assert(t[j] == y);
                    assert(insert_sorted(t, x).contains(y));
                    let i = choose|i: int|
                        0 <= i < insert_sorted(t, x).len() && insert_sorted(t, x)[i] == y;
                    assert(r[i] == y);
                } else {
                    assert(r[r.len() - 1] == y);
                }
            }
            if y == x {
                assert(insert_sorted(t, x).contains(x));
                let i = choose|i: int|
                    0 <= i < insert_sorted(t, x).len() && insert_sorted(t, x)[i] == x;
                assert(r[i] == x);
            }
        }
    } else {
        let r = s.push(x);
        assert(r[s.len() as int] == x);
        assert forall|y: Occurrence| #[trigger] r.contains(y) <==> (s.contains(y) || y == x) by {
            if s.contains(y) {
                let j = choose|j: int| 0 <= j < s.len() && s[j] == y;
                assert(r[j] == y);
            }
        }
    }
}

/// Sorting keeps exactly the elements it was given.
pub proof fn lemma_sort_contains(s: Seq<Occurrence>)
    ensures
        sort_occurrences(s).len() == s.len(),
        forall|y: Occurrence| #[trigger] sort_occurrences(s).contains(y) <==> s.contains(y),
    decreases s.len(),
{
    if s.len() > 0 {
        let t = s.drop_last();
        lemma_sort_contains(t);
        lemma_insert_sorted_contains(sort_occurrences(t), s.last());
        assert forall|y: Occurrence| #[trigger]
            sort_occurrences(s).contains(y) <==> s.contains(y) by {
            if s.contains(y) && y != s.last() {
                let j = choose|j: int| 0 <= j < s.len() && s[j] == y;
                assert(t[j] == y);
            }
            if t.contains(y) {
                let j = choose|j: int| 0 <= j < t.len() && t[j] == y;
                assert(s[j] == y);
            }
            assert(s[s.len() - 1] == s.last());
        }
    }
}

proof fn lemma_sort_wf(s: Seq<Occurrence>)
    requires
        occurrences_wf(s),
    ensures
        occurrences_wf(sort_occurrences(s)),
{
    lemma_sort_contains(s);
    let r = sort_occurrences(s);
    assert forall|i: int| 0 <= i < r.len() implies (#[trigger] r[i]).amount.wf() && r[i].date.wf() by {
        assert(r.contains(r[i]));
        let j = choose|j: int| 0 <= j < s.len() && s[j] == r[i];
    }
}

proof fn lemma_recurring_wf(rules: Seq<RecurringTransaction>, start: CivilDate, end: CivilDate)
    requires
        start.wf(),
        forall|i: int| 0 <= i < rules.len() ==> (#[trigger] rules[i]).amount.wf(),
    ensures
        occurrences_wf(recurring_occurrences(rules, start, end)),
    decreases rules.len(),
{
    if rules.len() > 0 {
        let t = rules.drop_last();
        assert forall|i: int| 0 <= i < t.len() implies (#[trigger] t[i]).amount.wf() by {
            assert(t[i] == rules[i]);
        }
        lemma_recurring_wf(t, start, end);
        assert(rules[rules.len() - 1] == rules.last());
        let ex = expand_spec(rules.last(), start, end);
        lemma_dates_from_wf(rules.last().day_of_month as int, start, end, start);
        let all = recurring_occurrences(rules, start, end);
        let prev = recurring_occurrences(t, start, end);
        if rules.last().active {
            assert(all == prev + ex);
            assert forall|i: int| 0 <= i < all.len() implies (#[trigger] all[i]).amount.wf()
                && all[i].date.wf() by {
                if i >= prev.len() {
                    assert(all[i] == ex[i - prev.len()]);
                }
            }
        }
    }
}

proof fn lemma_entries_wf(entries: Seq<OneTimeTransaction>, lo: CivilDate, hi: CivilDate)
    requires
        forall|i: int|
            0 <= i < entries.len() ==> (#[trigger] entries[i]).amount.wf() && entries[i].date.wf(),
    ensures
        occurrences_wf(entries_within(entries, lo, hi)),
        occurrences_wf(entries_strictly_between(entries, lo, hi)),
    decreases entries.len(),
{
    if entries.len() > 0 {
        let t = entries.drop_last();
        assert forall|i: int| 0 <= i < t.len() implies (#[trigger] t[i]).amount.wf()
            && t[i].date.wf() by {
            assert(t[i] == entries[i]);
        }
        lemma_entries_wf(t, lo, hi);
        assert(entries[entries.len() - 1] == entries.last());
    }
}

proof fn lemma_concat_wf(a: Seq<Occurrence>, b: Seq<Occurrence>)
    requires
        occurrences_wf(a),
        occurrences_wf(b),
    ensures
        occurrences_wf(a + b),
{
    assert forall|i: int| 0 <= i < (a + b).len() implies (#[trigger] (a + b)[i]).amount.wf() && (a
        + b)[i].date.wf() by {
        if i >= a.len() {
            assert((a + b)[i] == b[i - a.len()]);
        }
    }
}

/// Replays everything between the snapshot date and the anchor date onto
/// the snapshot balance: recurring occurrences in `(snapshot.date, today]`
/// and one-time entries strictly between the two dates, ordered by date and
/// creation instant.
pub fn reconcile_balance(data: &CashflowData, snapshot: &BalanceSnapshot, today: CivilDate) -> (r:
    Result<Amount, ProjectionError>)
    requires
        ledger_wf(*data),
        snapshot.date.wf(),
        snapshot.balance.wf(),
        today.wf(),
    ensures
        r matches Ok(b) ==> reconciled_balance(*data, *snapshot, today) == Some(b) && b.wf(),
        r matches Err(e) ==> e == ProjectionError::AmountOverflow && reconciled_balance(
            *data,
            *snapshot,
            today,
        ) is None,
{
    if !snapshot.date.is_before(&today) {
        return Ok(snapshot.balance);
    }
    let mut past = collect_recurring(&data.recurring, snapshot.date, today);
    collect_entries(&data.one_time, snapshot.date, today, false, &mut past);
    proof {
        lemma_recurring_wf(data.recurring@, snapshot.date, today);
        lemma_entries_wf(data.one_time@, snapshot.date, today);
        lemma_concat_wf(
            recurring_occurrences(data.recurring@, snapshot.date, today),
            entries_strictly_between(data.one_time@, snapshot.date, today),
        );
        lemma_sort_wf(past@);
    }
    let sorted = sort_occurrences_exec(past);
    match running_balance(snapshot.balance, sorted) {
        Ok((b, _)) => Ok(b),
        Err(e) => Err(e),
    }
}

/// Projects the balance over the `days` days that follow `today`.
///
/// The latest snapshot is reconciled forward to `today`; then the recurring
/// occurrences in `(today, today + days]` and the one-time entries in
/// `[today, today + days]` are ordered by date and creation instant and
/// applied one by one. Returns the balance on `today`, `today` itself, and
/// one row per applied transaction with the balance after it.
pub fn project_cashflow(data: &CashflowData, today: CivilDate, days: i64) -> (r: Result<
    (Amount, CivilDate, Vec<TransactionView>),
    ProjectionError,
>)
    requires
        ledger_wf(*data),
        today.wf(),
        days >= 0,
    ensures
        r matches Ok((b, d, rows)) ==> projection_spec(*data, today, days as nat) == Projection::Ok(
            (b, d, rows@),
        ),
        r matches Err(e) ==> projection_spec(*data, today, days as nat) == Projection::Err(e),
        (r matches Err(ProjectionError::NoBalanceAnchor)) <==> data.balance_snapshots@.len() == 0,
{
    let snapshot = match find_latest_balance_snapshot(data) {
        Ok(s) => s,
        Err(e) => return Err(e),
    };
    proof {
        let i = latest_index(data.balance_snapshots@);
        lemma_latest_index_range(data.balance_snapshots@);
        assert(data.balance_snapshots@[i] == *snapshot);
    }
    let starting_balance = match reconcile_balance(data, snapshot, today) {
        Ok(b) => b,
        Err(e) => return Err(e),
    };
    let end_date = match today.checked_add_days(days as u64) {
        Some(end) => end,
        None => CivilDate { year: MAX_YEAR, month: 12, day: 31 },
    };
    assert(end_date == window_end(today, days as nat));
    let mut upcoming = collect_recurring(&data.recurring, today, end_date);
    collect_entries(&data.one_time, today, end_date, true, &mut upcoming);
    proof {
        lemma_recurring_wf(data.recurring@, today, end_date);
        lemma_entries_wf(data.one_time@, today, end_date);
        lemma_concat_wf(
            recurring_occurrences(data.recurring@, today, end_date),
            entries_within(data.one_time@, today, end_date),
        );
        lemma_sort_wf(upcoming@);
    }
    let sorted = sort_occurrences_exec(upcoming);
    match running_balance(starting_balance, sorted) {
        Ok((_, rows)) => Ok((starting_balance, today, rows)),
        Err(e) => Err(e),
    }
}

pub proof fn lemma_latest_index_range(snaps: Seq<BalanceSnapshot>)
    requires
        snaps.len() > 0,
    ensures
        0 <= latest_index(snaps) < snaps.len(),
    decreases snaps.len(),
{
    if snaps.len() > 1 {
        lemma_latest_index_range(snaps.drop_last());
    }
}

} // verus!
