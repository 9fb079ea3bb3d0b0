//! Civil calendar dates and the month arithmetic the projection engine uses.
use vstd::prelude::*;

verus! {

/// Earliest year that a date of the calendar library can hold.
pub const MIN_YEAR: i32 = -262143;

/// Latest year that a date of the calendar library can hold.
pub const MAX_YEAR: i32 = 262142;

/// Leap years of the proleptic Gregorian calendar.
pub open spec fn is_leap_year(year: int) -> bool {
    (year % 4 == 0 && year % 100 != 0) || year % 400 == 0
}

/// Number of days in a month of the proleptic Gregorian calendar.
pub open spec fn month_days(year: int, month: int) -> int {
    if month == 2 {
        if is_leap_year(year) {
            29
        } else {
            28
        }
    } else if month == 4 || month == 6 || month == 9 || month == 11 {
        30
    } else {
        31
    }
}

/// A year, month and day that name an existing, representable calendar day.
pub open spec fn is_valid_ymd(year: int, month: int, day: int) -> bool {
    &&& MIN_YEAR <= year <= MAX_YEAR
    &&& 1 <= month <= 12
    &&& 1 <= day <= month_days(year, month)
}

/// A calendar date without time of day or time zone.
#[derive(Clone, Copy, Debug, PartialEq, Eq, Structural)]
pub struct CivilDate {
    pub year: i32,
    pub month: u32,
    pub day: u32,
}

impl CivilDate {
    pub open spec fn wf(&self) -> bool {
        is_valid_ymd(self.year as int, self.month as int, self.day as int)
    }

    /// Builds a date from year, month and day, or `None` if no such day exists.
    pub fn from_ymd_opt(year: i32, month: u32, day: u32) -> (r: Option<CivilDate>)
        ensures
            r is Some <==> is_valid_ymd(year as int, month as int, day as int),
            r matches Some(d) ==> d.year == year && d.month == month && d.day == day,
    {
        if ymd_exists(year, month, day) {
            Some(CivilDate { year, month, day })
        } else {
            None
        }
    }
}

/// Relies on chrono's `NaiveDate::from_ymd_opt`, which returns a date exactly
/// when the year lies in chrono's range and the month and day name a day of
/// the proleptic Gregorian calendar.
#[verifier::external_body]
fn ymd_exists(year: i32, month: u32, day: u32) -> (r: bool)
    ensures
        r == is_valid_ymd(year as int, month as int, day as int),
{
    chrono::NaiveDate::from_ymd_opt(year, month, day).is_some()
}

/// Relies on chrono's `Datelike::num_days_in_month`, applied to the first day
/// of the month: the length of that month, leap years included.
#[verifier::external_body]
fn month_length(year: i32, month: u32) -> (r: u8)
    requires
        MIN_YEAR <= year <= MAX_YEAR,
        1 <= month <= 12,
    ensures
        r == month_days(year as int, month as int),
{
    let first = chrono::NaiveDate::from_ymd_opt(year, month, 1).unwrap();
    chrono::Datelike::num_days_in_month(&first)
}

/// Returns the number of days in the given month.
pub fn days_in_month(year: i32, month: u32) -> (r: u8)
    requires
        MIN_YEAR <= year <= MAX_YEAR,
        1 <= month <= 12,
    ensures
        r == month_days(year as int, month as int),
        28 <= r <= 31,
{
    month_length(year, month)
}

/// Orders dates by year, then month, then day.
pub open spec fn date_lt(a: CivilDate, b: CivilDate) -> bool {
    a.year < b.year || (a.year == b.year && (a.month < b.month || (a.month == b.month && a.day
        < b.day)))
}

pub open spec fn date_le(a: CivilDate, b: CivilDate) -> bool {
    !date_lt(b, a)
}

/// Months counted from year zero, so that consecutive months differ by one.
pub open spec fn month_index(d: CivilDate) -> int {
    d.year * 12 + d.month
}

/// The first day of the calendar library's range.
pub open spec fn first_date() -> CivilDate {
    CivilDate { year: MIN_YEAR, month: 1, day: 1 }
}

/// The last day of the calendar library's range.
pub open spec fn last_date() -> CivilDate {
    CivilDate { year: MAX_YEAR, month: 12, day: 31 }
}

/// Year, month and day of a date as mathematical integers.
pub open spec fn ymd(d: CivilDate) -> (int, int, int) {
    (d.year as int, d.month as int, d.day as int)
}

/// The calendar day after `(year, month, day)`, with no bound on the year.
pub open spec fn next_day(t: (int, int, int)) -> (int, int, int) {
    if t.2 < month_days(t.0, t.1) {
        (t.0, t.1, t.2 + 1)
    } else if t.1 < 12 {
        (t.0, t.1 + 1, 1)
    } else {
        (t.0 + 1, 1, 1)
    }
}

/// The calendar day `n` days after `(year, month, day)`.
pub open spec fn days_after(t: (int, int, int), n: nat) -> (int, int, int)
    decreases n,
{
    if n == 0 {
        t
    } else {
        next_day(days_after(t, (n - 1) as nat))
    }
}

/// The day a monthly rule that targets `target` falls on in the given month:
/// the target day, or the month's last day when the month is shorter. A
/// target of zero names no day.
pub open spec fn month_occurrence(year: int, month: int, target: int) -> Option<CivilDate> {
    if target >= 1 {
        let day = if target <= month_days(year, month) {
            target
        } else {
            month_days(year, month)
        };
        Some(CivilDate { year: year as i32, month: month as u32, day: day as u32 })
    } else {
        None
    }
}

/// The same day number one month later, or the first of that month when the
/// day does not exist there.
pub open spec fn next_month_spec(d: CivilDate) -> CivilDate {
    let (y, m) = if d.month == 12 {
        (d.year + 1, 1int)
    } else {
        (d.year as int, d.month + 1)
    };
    if is_valid_ymd(y, m, d.day as int) {
        CivilDate { year: y as i32, month: m as u32, day: d.day }
    } else {
        CivilDate { year: y as i32, month: m as u32, day: 1 }
    }
}

/// Every date the monthly rule on `target` produces in `(start, end]`,
/// visiting months from `pointer` on, one month at a time, until `end`'s month.
pub open spec fn dates_from(target: int, start: CivilDate, end: CivilDate, pointer: CivilDate) -> Seq<
    CivilDate,
>
    decreases month_index(end) - month_index(pointer),
{
    let here = match month_occurrence(pointer.year as int, pointer.month as int, target) {
        Some(d) => if date_lt(start, d) && date_le(d, end) {
            seq![d]
        } else {
            seq![]
        },
        None => seq![],
    };
    if !pointer.wf() || !end.wf() || month_index(pointer) >= month_index(end) {
        here
    } else {
        here + dates_from(target, start, end, next_month_spec(pointer))
    }
}

/// Facts about stepping a valid date one month on.
pub proof fn lemma_next_month_spec(d: CivilDate)
    requires
        d.wf(),
        d.year < MAX_YEAR || d.month < 12,
    ensures
        next_month_spec(d).wf(),
        month_index(next_month_spec(d)) == month_index(d) + 1,
{
}

impl CivilDate {
    /// True when the date names an existing, representable day.
    pub fn is_valid(&self) -> (r: bool)
        ensures
            r == self.wf(),
    {
        ymd_exists(self.year, self.month, self.day)
    }

    /// True when `self` is an earlier day than `other`.
    pub fn is_before(&self, other: &CivilDate) -> (r: bool)
        ensures
            r == date_lt(*self, *other),
    {
        self.year < other.year || (self.year == other.year && (self.month < other.month || (
        self.month == other.month && self.day < other.day)))
    }

    /// The date `days` days later, or `None` when it lies past the last
    /// representable date.
    pub fn checked_add_days(&self, days: u64) -> (r: Option<CivilDate>)
        requires
            self.wf(),
        ensures
            r is Some <==> days_after(ymd(*self), days as nat).0 <= MAX_YEAR,
            r matches Some(d) ==> d.wf() && ymd(d) == days_after(ymd(*self), days as nat),
    {
        add_days(*self, days)
    }
}

/// Relies on chrono's `NaiveDate::checked_add_days`: the date that many days
/// later, or `None` when it lies past chrono's last date (December 31 of
/// `MAX_YEAR`).
#[verifier::external_body]
fn add_days(d: CivilDate, days: u64) -> (r: Option<CivilDate>)
    requires
        d.wf(),
    ensures
        r is Some <==> days_after(ymd(d), days as nat).0 <= MAX_YEAR,
        r matches Some(x) ==> x.wf() && ymd(x) == days_after(ymd(d), days as nat),
{
    let start = chrono::NaiveDate::from_ymd_opt(d.year, d.month, d.day).unwrap();
    let end = start.checked_add_days(chrono::Days::new(days))?;
    Some(
        CivilDate {
            year: chrono::Datelike::year(&end),
            month: chrono::Datelike::month(&end),
            day: chrono::Datelike::day(&end),
        },
    )
}

/// Resolves a monthly rule's target day within the month of `base_date`:
/// the target day itself, or the month's last day when the month is shorter.
/// A target of zero yields `None`.
pub fn get_transaction_date_in_month(base_date: CivilDate, day_of_month: u8) -> (r: Option<
    CivilDate,
>)
    requires
        base_date.wf(),
    ensures
        r == month_occurrence(base_date.year as int, base_date.month as int, day_of_month as int),
        r matches Some(d) ==> d.wf(),
{
    let year = base_date.year;
    let month = base_date.month;
    let days = days_in_month(year, month);
    let actual_day = if day_of_month < days {
        day_of_month
    } else {
        days
    };
    CivilDate::from_ymd_opt(year, month, actual_day as u32)
}

/// Advances to the same day number in the following month, falling back to
/// the first of that month when the day does not exist there.
pub fn next_month(date: CivilDate) -> (r: CivilDate)
    requires
        date.wf(),
        date.year < MAX_YEAR || date.month < 12,
    ensures
        r == next_month_spec(date),
        r.wf(),
        month_index(r) == month_index(date) + 1,
{
    let (year, month) = if date.month == 12 {
        (date.year + 1, 1u32)
    } else {
        (date.year, date.month + 1)
    };
    match CivilDate::from_ymd_opt(year, month, date.day) {
        Some(d) => d,
        None => CivilDate { year, month, day: 1 },
    }
}

} // verus!
