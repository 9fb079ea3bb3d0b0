//! Changes to the ledger: setting a balance, and finding, editing, enabling,
//! disabling and deleting transactions by identifier.
use crate::amount::Amount;
use crate::calendar::CivilDate;
use crate::models::{BalanceSnapshot, CashflowData, OneTimeTransaction, RecurringTransaction};
use vstd::prelude::*;

verus! {

/// Why a change to the ledger was refused.
#[derive(Clone, Copy, Debug, PartialEq, Eq, Structural)]
pub enum LedgerError {
    /// A day of month outside 1 to 31.
    InvalidDay,
    /// No transaction has the identifier.
    NotFound,
}

/// Accepts a day of month from 1 to 31.
pub fn validate_day(day: u8) -> (r: Result<u8, LedgerError>)
    ensures
        1 <= day <= 31 ==> r == Ok::<u8, LedgerError>(day),
        !(1 <= day <= 31) ==> r == Err::<u8, LedgerError>(LedgerError::InvalidDay),
{
    if 1 <= day && day <= 31 {
        Ok(day)
    } else {
        Err(LedgerError::InvalidDay)
    }
}

/// `i` is the first position of a snapshot dated `date`.
pub open spec fn first_snapshot_on(snaps: Seq<BalanceSnapshot>, date: CivilDate, i: int) -> bool {
    &&& 0 <= i < snaps.len()
    &&& snaps[i].date == date
    &&& forall|k: int| 0 <= k < i ==> (#[trigger] snaps[k]).date != date
}

/// `i` is the first position of a rule with identifier `id`.
pub open spec fn first_rule_with_id(rules: Seq<RecurringTransaction>, id: u128, i: int) -> bool {
    &&& 0 <= i < rules.len()
    &&& rules[i].id == id
    &&& forall|k: int| 0 <= k < i ==> (#[trigger] rules[k]).id != id
}

/// `i` is the first position of an entry with identifier `id`.
pub open spec fn first_entry_with_id(entries: Seq<OneTimeTransaction>, id: u128, i: int) -> bool {
    &&& 0 <= i < entries.len()
    &&& entries[i].id == id
    &&& forall|k: int| 0 <= k < i ==> (#[trigger] entries[k]).id != id
}

/// Records the balance on a date: the first snapshot of that date gets the
/// new balance, or a new snapshot is added when there is none. Returns true
/// when an existing snapshot was updated.
pub fn set_balance(data: &mut CashflowData, date: CivilDate, amount: Amount) -> (updated: bool)
    ensures
        final(data).recurring@ == old(data).recurring@,
        final(data).one_time@ == old(data).one_time@,
        updated <==> exists|i: int| first_snapshot_on(old(data).balance_snapshots@, date, i),
        forall|i: int|
            first_snapshot_on(old(data).balance_snapshots@, date, i) ==> final(data).balance_snapshots@ == old(data).balance_snapshots@.update(
                i,
                BalanceSnapshot { balance: amount, ..old(data).balance_snapshots@[i] },
            ),
        !updated ==> {
            let (before, after) = (old(data).balance_snapshots@, final(data).balance_snapshots@);
            &&& after.len() == before.len() + 1
            &&& after.drop_last() == before
            &&& after.last().date == date
            &&& after.last().balance == amount
        },
{
    let mut i: usize = 0;
    while i < data.balance_snapshots.len()
        invariant
            i <= data.balance_snapshots@.len(),
            *data == *old(data),
            forall|k: int| 0 <= k < i ==> (#[trigger] data.balance_snapshots@[k]).date != date,
        decreases data.balance_snapshots@.len() - i,
    {
        if data.balance_snapshots[i].date == date {
            let ghost before = data.balance_snapshots@;
            assert(first_snapshot_on(before, date, i as int));
            data.balance_snapshots[i].balance = amount;
            assert(data.balance_snapshots@ =~= before.update(
                i as int,
                BalanceSnapshot { balance: amount, ..before[i as int] },
            ));
            assert forall|j: int| first_snapshot_on(before, date, j) implies j == i by {
                if j < i {
                } else if j > i {
                    assert(before[i as int].date == date);
                }
            }
            return true;
        }
        i = i + 1;
    }
    let ghost before = data.balance_snapshots@;
    data.balance_snapshots.push(BalanceSnapshot::new(date, amount));
    assert(data.balance_snapshots@.drop_last() =~= before);
    false
}

/// Position of the first rule with identifier `id`.
pub fn find_recurring(rules: &Vec<RecurringTransaction>, id: u128) -> (r: Option<usize>)
    ensures
        r matches Some(i) ==> first_rule_with_id(rules@, id, i as int),
        r is None ==> forall|k: int| 0 <= k < rules@.len() ==> (#[trigger] rules@[k]).id != id,
{
    let mut i: usize = 0;
    while i < rules.len()
        invariant
            i <= rules@.len(),
            forall|k: int| 0 <= k < i ==> (#[trigger] rules@[k]).id != id,
        decreases rules@.len() - i,
    {
        if rules[i].id == id {
            return Some(i);
        }
        i = i + 1;
    }
    None
}

/// Position of the first one-time entry with identifier `id`.
pub fn find_one_time(entries: &Vec<OneTimeTransaction>, id: u128) -> (r: Option<usize>)
    ensures
        r matches Some(i) ==> first_entry_with_id(entries@, id, i as int),
        r is None ==> forall|k: int| 0 <= k < entries@.len() ==> (#[trigger] entries@[k]).id != id,
{
    let mut i: usize = 0;
    while i < entries.len()
        invariant
            i <= entries@.len(),
            forall|k: int| 0 <= k < i ==> (#[trigger] entries@[k]).id != id,
        decreases entries@.len() - i,
    {
        if entries[i].id == id {
            return Some(i);
        }
        i = i + 1;
    }
    None
}

/// Enables or disables the first rule with identifier `id`; returns its
/// position.
pub fn set_recurring_active(data: &mut CashflowData, id: u128, active: bool) -> (r: Result<
    usize,
    LedgerError,
>)
    ensures
        final(data).one_time@ == old(data).one_time@,
        final(data).balance_snapshots@ == old(data).balance_snapshots@,
        r matches Ok(i) ==> first_rule_with_id(old(data).recurring@, id, i as int) && final(data).recurring@ == old(data).recurring@.update(
            i as int,
            RecurringTransaction { active, ..old(data).recurring@[i as int] },
        ),
        r is Err ==> r == Err::<usize, LedgerError>(LedgerError::NotFound) && final(data).recurring@
            == old(data).recurring@ && forall|k: int|
            0 <= k < old(data).recurring@.len() ==> (#[trigger] old(data).recurring@[k]).id != id,
{
    match find_recurring(&data.recurring, id) {
        Some(i) => {
            let ghost before = data.recurring@;
            data.recurring[i].active = active;
            assert(data.recurring@ =~= before.update(
                i as int,
                RecurringTransaction { active, ..before[i as int] },
            ));
            Ok(i)
        },
        None => Err(LedgerError::NotFound),
    }
}

/// Deletes the first rule with identifier `id` and returns it.
pub fn remove_recurring(data: &mut CashflowData, id: u128) -> (r: Result<
    RecurringTransaction,
    LedgerError,
>)
    ensures
        final(data).one_time@ == old(data).one_time@,
        final(data).balance_snapshots@ == old(data).balance_snapshots@,
        r matches Ok(t) ==> exists|i: int|
            first_rule_with_id(old(data).recurring@, id, i) && t == old(data).recurring@[i] && final(data).recurring@ == old(data).recurring@.remove(i),
        r is Err ==> (r matches Err(LedgerError::NotFound)) && final(data).recurring@ == old(data).recurring@ && forall|k: int|
            0 <= k < old(data).recurring@.len() ==> (#[trigger] old(data).recurring@[k]).id != id,
{
    match find_recurring(&data.recurring, id) {
        Some(i) => {
            let ghost before = data.recurring@;
            let t = data.recurring.remove(i);
            assert(first_rule_with_id(before, id, i as int));
            Ok(t)
        },
        None => Err(LedgerError::NotFound),
    }
}

/// Deletes the first one-time entry with identifier `id` and returns it.
pub fn remove_one_time(data: &mut CashflowData, id: u128) -> (r: Result<
    OneTimeTransaction,
    LedgerError,
>)
    ensures
        final(data).recurring@ == old(data).recurring@,
        final(data).balance_snapshots@ == old(data).balance_snapshots@,
        r matches Ok(t) ==> exists|i: int|
            first_entry_with_id(old(data).one_time@, id, i) && t == old(data).one_time@[i] && final(data).one_time@ == old(data).one_time@.remove(i),
        r is Err ==> (r matches Err(LedgerError::NotFound)) && final(data).one_time@ == old(data).one_time@ && forall|k: int|
            0 <= k < old(data).one_time@.len() ==> (#[trigger] old(data).one_time@[k]).id != id,
{
    match find_one_time(&data.one_time, id) {
        Some(i) => {
            let ghost before = data.one_time@;
            let t = data.one_time.remove(i);
            assert(first_entry_with_id(before, id, i as int));
            Ok(t)
        },
        None => Err(LedgerError::NotFound),
    }
}

/// The rule with the given changes applied.
pub open spec fn edited_rule(
    t: RecurringTransaction,
    amount: Option<Amount>,
    day: Option<u8>,
    description: Option<String>,
) -> RecurringTransaction {
    RecurringTransaction {
        amount: match amount {
            Some(a) => a,
            None => t.amount,
        },
        day_of_month: match day {
            Some(d) => d,
            None => t.day_of_month,
        },
        description: match description {
            Some(s) => s,
            None => t.description,
        },
        ..t
    }
}

/// Changes amount, day of month and description of the first rule with
/// identifier `id`, each where a new value is given; returns its position.
/// A day outside 1 to 31 is refused and nothing changes.
pub fn edit_recurring(
    data: &mut CashflowData,
    id: u128,
    amount: Option<Amount>,
    day: Option<u8>,
    description: Option<String>,
) -> (r: Result<usize, LedgerError>)
    ensures
        final(data).one_time@ == old(data).one_time@,
        final(data).balance_snapshots@ == old(data).balance_snapshots@,
        r matches Ok(i) ==> first_rule_with_id(old(data).recurring@, id, i as int) && final(data).recurring@ == old(data).recurring@.update(
            i as int,
            edited_rule(old(data).recurring@[i as int], amount, day, description),
        ),
        r is Err ==> final(data).recurring@ == old(data).recurring@,
        r matches Err(LedgerError::NotFound) <==> forall|k: int|
            0 <= k < old(data).recurring@.len() ==> (#[trigger] old(data).recurring@[k]).id != id,
        r matches Err(LedgerError::InvalidDay) <==> (exists|k: int|
            0 <= k < old(data).recurring@.len() && (#[trigger] old(data).recurring@[k]).id == id)
            && (day matches Some(d) && !(1 <= d <= 31)),
{
    let i = match find_recurring(&data.recurring, id) {
        Some(i) => i,
        None => return Err(LedgerError::NotFound),
    };
    if let Some(d) = day {
        if validate_day(d).is_err() {
            return Err(LedgerError::InvalidDay);
        }
    }
    let ghost before = data.recurring@;
    if let Some(a) = amount {
        data.recurring[i].amount = a;
    }
    if let Some(d) = day {
        data.recurring[i].day_of_month = d;
    }
    if let Some(s) = description {
        data.recurring[i].description = s;
    }
    assert(data.recurring@ =~= before.update(
        i as int,
        edited_rule(before[i as int], amount, day, description),
    ));
    Ok(i)
}

/// The entry with the given changes applied.
pub open spec fn edited_entry(
    t: OneTimeTransaction,
    amount: Option<Amount>,
    date: Option<CivilDate>,
    description: Option<String>,
) -> OneTimeTransaction {
    OneTimeTransaction {
        amount: match amount {
            Some(a) => a,
            None => t.amount,
        },
        date: match date {
            Some(d) => d,
            None => t.date,
        },
        description: match description {
            Some(s) => s,
            None => t.description,
        },
        ..t
    }
}

/// Changes amount, date and description of the first one-time entry with
/// identifier `id`, each where a new value is given; returns its position.
pub fn edit_one_time(
    data: &mut CashflowData,
    id: u128,
    amount: Option<Amount>,
    date: Option<CivilDate>,
    description: Option<String>,
) -> (r: Result<usize, LedgerError>)
    ensures
        final(data).recurring@ == old(data).recurring@,
        final(data).balance_snapshots@ == old(data).balance_snapshots@,
        r matches Ok(i) ==> first_entry_with_id(old(data).one_time@, id, i as int) && final(data).one_time@ == old(data).one_time@.update(
            i as int,
            edited_entry(old(data).one_time@[i as int], amount, date, description),
        ),
        r is Err ==> (r matches Err(LedgerError::NotFound)) && final(data).one_time@ == old(data).one_time@ && forall|k: int|
            0 <= k < old(data).one_time@.len() ==> (#[trigger] old(data).one_time@[k]).id != id,
{
    let i = match find_one_time(&data.one_time, id) {
        Some(i) => i,
        None => return Err(LedgerError::NotFound),
    };
    let ghost before = data.one_time@;
    if let Some(a) = amount {
        data.one_time[i].amount = a;
    }
    if let Some(d) = date {
        data.one_time[i].date = d;
    }
    if let Some(s) = description {
        data.one_time[i].description = s;
    }
    assert(data.one_time@ =~= before.update(
        i as int,
        edited_entry(before[i as int], amount, date, description),
    ));
    Ok(i)
}

} // verus!
