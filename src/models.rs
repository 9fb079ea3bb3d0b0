//! The ledger: recurring rules, one-time entries and balance snapshots, and
//! the rows of a projection.
use crate::amount::Amount;
use crate::calendar::CivilDate;
use vstd::prelude::*;

verus! {

/// An instant, as whole seconds since the Unix epoch and the nanoseconds
/// past that second. Instants order by seconds, then nanoseconds.
#[derive(Clone, Copy, Debug, PartialEq, Eq, Structural)]
pub struct Timestamp {
    pub seconds: i64,
    pub nanos: u32,
}

pub open spec fn timestamp_lt(a: Timestamp, b: Timestamp) -> bool {
    a.seconds < b.seconds || (a.seconds == b.seconds && a.nanos < b.nanos)
}

impl Timestamp {
    /// True when `self` is an earlier instant than `other`.
    pub fn is_before(&self, other: &Timestamp) -> (r: bool)
        ensures
            r == timestamp_lt(*self, *other),
    {
        self.seconds < other.seconds || (self.seconds == other.seconds && self.nanos
            < other.nanos)
    }
}

/// Relies on uuid's `Uuid::new_v4`: a random identifier, as its 128 bits.
#[verifier::external_body]
fn fresh_id() -> (r: u128) {
    uuid::Uuid::new_v4().as_u128()
}

/// Relies on chrono's `Utc::now`: the current instant.
#[verifier::external_body]
fn now() -> (r: Timestamp) {
    let t = chrono::Utc::now();
    Timestamp { seconds: t.timestamp(), nanos: t.timestamp_subsec_nanos() }
}

/// The whole ledger that a projection reads.
#[derive(Clone, Debug, PartialEq)]
pub struct CashflowData {
    pub recurring: Vec<RecurringTransaction>,
    pub one_time: Vec<OneTimeTransaction>,
    pub balance_snapshots: Vec<BalanceSnapshot>,
}

impl CashflowData {
    /// An empty ledger.
    pub fn new() -> (r: CashflowData)
        ensures
            r.recurring@.len() == 0,
            r.one_time@.len() == 0,
            r.balance_snapshots@.len() == 0,
    {
        CashflowData { recurring: Vec::new(), one_time: Vec::new(), balance_snapshots: Vec::new() }
    }
}

impl Default for CashflowData {
    fn default() -> (r: CashflowData)
        ensures
            r.recurring@.len() == 0,
            r.one_time@.len() == 0,
            r.balance_snapshots@.len() == 0,
    {
        CashflowData::new()
    }
}

/// A payment that repeats every month on `day_of_month`, clamped to the
/// month's last day in shorter months.
#[derive(Clone, Debug, PartialEq)]
pub struct RecurringTransaction {
    pub id: u128,
    pub description: String,
    /// Positive for income, negative for expenses.
    pub amount: Amount,
    /// Day of month when the payment occurs (1-31).
    pub day_of_month: u8,
    /// Inactive rules are kept but never projected.
    pub active: bool,
    pub created_at: Timestamp,
}

impl RecurringTransaction {
    /// An active rule with a fresh identifier, created now.
    pub fn new(description: String, amount: Amount, day_of_month: u8) -> (r: RecurringTransaction)
        ensures
            r.description == description,
            r.amount == amount,
            r.day_of_month == day_of_month,
            r.active,
    {
        RecurringTransaction {
            id: fresh_id(),
            description,
            amount,
            day_of_month,
            active: true,
            created_at: now(),
        }
    }
}

/// A single dated transaction.
#[derive(Clone, Debug, PartialEq)]
pub struct OneTimeTransaction {
    pub id: u128,
    pub description: String,
    pub amount: Amount,
    pub date: CivilDate,
    pub created_at: Timestamp,
}

impl OneTimeTransaction {
    /// An entry with a fresh identifier, created now.
    pub fn new(description: String, amount: Amount, date: CivilDate) -> (r: OneTimeTransaction)
        ensures
            r.description == description,
            r.amount == amount,
            r.date == date,
    {
        OneTimeTransaction { id: fresh_id(), description, amount, date, created_at: now() }
    }
}

/// A balance observed on a given date.
#[derive(Clone, Debug, PartialEq)]
pub struct BalanceSnapshot {
    pub id: u128,
    pub date: CivilDate,
    pub balance: Amount,
    pub created_at: Timestamp,
}

impl BalanceSnapshot {
    /// A snapshot with a fresh identifier, created now.
    pub fn new(date: CivilDate, balance: Amount) -> (r: BalanceSnapshot)
        ensures
            r.date == date,
            r.balance == balance,
    {
        BalanceSnapshot { id: fresh_id(), date, balance, created_at: now() }
    }
}

/// One row of a projection: a dated transaction and the balance after it.
#[derive(Clone, Debug, PartialEq)]
pub struct TransactionView {
    pub date: CivilDate,
    /// The day of the month the transaction falls on.
    pub day_of_month: u8,
    pub description: String,
    pub amount: Amount,
    /// True for a one-time entry, false for an occurrence of a recurring rule.
    pub is_one_time: bool,
    /// Running balance after this transaction.
    pub balance_after: Amount,
}

impl TransactionView {
    /// The row for an occurrence of `txn` on `date`.
    pub fn from_recurring(txn: &RecurringTransaction, date: CivilDate, balance_after: Amount) -> (r:
        TransactionView)
        requires
            date.wf(),
        ensures
            r.date == date,
            r.day_of_month == date.day,
            r.description == txn.description,
            r.amount == txn.amount,
            !r.is_one_time,
            r.balance_after == balance_after,
    {
        TransactionView {
            date,
            day_of_month: date.day as u8,
            description: txn.description.clone(),
            amount: txn.amount,
            is_one_time: false,
            balance_after,
        }
    }

    /// The row for the one-time entry `txn`.
    pub fn from_one_time(txn: &OneTimeTransaction, balance_after: Amount) -> (r: TransactionView)
        requires
            txn.date.wf(),
        ensures
            r.date == txn.date,
            r.day_of_month == txn.date.day,
            r.description == txn.description,
            r.amount == txn.amount,
            r.is_one_time,
            r.balance_after == balance_after,
    {
        TransactionView {
            date: txn.date,
            day_of_month: txn.date.day as u8,
            description: txn.description.clone(),
            amount: txn.amount,
            is_one_time: true,
            balance_after,
        }
    }
}

} // verus!
