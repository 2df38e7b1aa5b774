use vstd::prelude::*;
use chrono::Datelike;

verus! {

/// Latest year a `Date` may hold: years print as four digits.
pub const MAX_YEAR: i32 = 9999;

/// A calendar day of the proleptic Gregorian calendar.
#[derive(Clone, Copy, Debug, PartialEq, Eq, Structural)]
pub struct Date {
    pub year: i32,
    pub month: u32,
    pub day: u32,
}

pub open spec fn is_leap_year(year: int) -> bool {
    (year % 4 == 0 && year % 100 != 0) || year % 400 == 0
}

pub open spec fn days_in_month(year: int, month: int) -> int {
    if month == 2 {
        if is_leap_year(year) { 29 } else { 28 }
    } else if month == 4 || month == 6 || month == 9 || month == 11 {
        30
    } else {
        31
    }
}

impl Date {
    /// A real calendar day in years `0..=MAX_YEAR`.
    pub open spec fn wf(self) -> bool {
        &&& 0 <= self.year <= MAX_YEAR
        &&& 1 <= self.month <= 12
        &&& 1 <= self.day <= days_in_month(self.year as int, self.month as int)
    }

    /// Builds a date from its parts, if they name a real day in range.
    pub fn new(year: i32, month: u32, day: u32) -> (r: Option<Date>)
        ensures
            r is Some <==> (Date { year, month, day }).wf(),
            r is Some ==> r->Some_0 == (Date { year, month, day }),
    {
        let d = Date { year, month, day };
        if 0 <= year && year <= MAX_YEAR && 1 <= month && month <= 12 && 1 <= day
            && day <= days_in_month_exec(year, month) {
            Some(d)
        } else {
            None
        }
    }
}

/// Number of days in `month` of `year`.
pub fn days_in_month_exec(year: i32, month: u32) -> (r: u32)
    ensures
        r == days_in_month(year as int, month as int),
{
    if month == 2 {
        if (year % 4 == 0 && year % 100 != 0) || year % 400 == 0 {
            29
        } else {
            28
        }
    } else if month == 4 || month == 6 || month == 9 || month == 11 {
        30
    } else {
        31
    }
}

/// The calendar month that precedes `year`/`month`, as (year, month).
pub open spec fn month_before(year: int, month: int) -> (int, int) {
    if month == 1 { (year - 1, 12) } else { (year, month - 1) }
}

/// The whole calendar month for which costs are reported.
#[derive(Clone, Copy, Debug, PartialEq, Eq, Structural)]
pub struct ReportPeriod {
    pub start: Date,
    pub end: Date,
}

impl ReportPeriod {
    /// `start` is the first and `end` the last day of one month.
    pub open spec fn wf(self) -> bool {
        &&& self.start.wf()
        &&& self.end.wf()
        &&& self.start.day == 1
        &&& self.end.year == self.start.year
        &&& self.end.month == self.start.month
        &&& self.end.day == days_in_month(self.start.year as int, self.start.month as int)
    }

    /// The period that covers exactly the calendar month before the month of `now`.
    pub open spec fn previous_month_of(now: Date) -> ReportPeriod {
        let (y, m) = month_before(now.year as int, now.month as int);
        ReportPeriod {
            start: Date { year: y as i32, month: m as u32, day: 1 },
            end: Date { year: y as i32, month: m as u32, day: days_in_month(y, m) as u32 },
        }
    }
}

/// Relies on date_calculations::previous_month, on the chrono::NaiveDate that
/// `d` names: the first day of the month before the month of `d` (December of
/// the year before, for January).
#[verifier::external_body]
fn previous_month(d: Date) -> (r: Option<Date>)
    requires
        d.wf(),
        d.year >= 1 || d.month > 1,
    ensures
        r == Some(
            Date {
                year: month_before(d.year as int, d.month as int).0 as i32,
                month: month_before(d.year as int, d.month as int).1 as u32,
                day: 1,
            },
        ),
{
    let nd = chrono::NaiveDate::from_ymd_opt(d.year, d.month, d.day)?;
    let p = date_calculations::previous_month(&nd)?;
    Some(Date { year: p.year(), month: p.month(), day: p.day() })
}

/// Relies on date_calculations::end_of_month, on the chrono::NaiveDate that `d`
/// names: the last day of the month of `d`.
#[verifier::external_body]
fn end_of_month(d: Date) -> (r: Option<Date>)
    requires
        d.wf(),
    ensures
        r == Some(
            Date {
                year: d.year,
                month: d.month,
                day: days_in_month(d.year as int, d.month as int) as u32,
            },
        ),
{
    let nd = chrono::NaiveDate::from_ymd_opt(d.year, d.month, d.day)?;
    let e = date_calculations::end_of_month(&nd)?;
    Some(Date { year: e.year(), month: e.month(), day: e.day() })
}

/// The calendar month that follows `year`/`month`, as (year, month).
pub open spec fn month_after(year: int, month: int) -> (int, int) {
    if month == 12 { (year + 1, 1) } else { (year, month + 1) }
}

/// Relies on date_calculations::next_month, on the chrono::NaiveDate that `d`
/// names: the first day of the month after the month of `d` (January of the
/// next year, for December).
#[verifier::external_body]
fn next_month(d: Date) -> (r: Option<Date>)
    requires
        d.wf(),
    ensures
        r == Some(
            Date {
                year: month_after(d.year as int, d.month as int).0 as i32,
                month: month_after(d.year as int, d.month as int).1 as u32,
                day: 1,
            },
        ),
{
    let nd = chrono::NaiveDate::from_ymd_opt(d.year, d.month, d.day)?;
    let n = date_calculations::next_month(&nd)?;
    Some(Date { year: n.year(), month: n.month(), day: n.day() })
}

impl ReportPeriod {
    /// The first day after the period, for queries whose end date is exclusive.
    pub fn day_after(&self) -> (r: Date)
        requires
            self.wf(),
            self.end.year < MAX_YEAR || self.end.month < 12,
        ensures
            r.wf(),
            r == (Date {
                year: month_after(self.end.year as int, self.end.month as int).0 as i32,
                month: month_after(self.end.year as int, self.end.month as int).1 as u32,
                day: 1,
            }),
    {
        next_month(self.end).unwrap()
    }
}

/// The period to report on when the job runs on day `now`: the whole
/// calendar month before the month of `now`.
pub fn compute_report_period(now: Date) -> (r: ReportPeriod)
    requires
        now.wf(),
        now.year >= 1 || now.month > 1,
    ensures
        r == ReportPeriod::previous_month_of(now),
        r.wf(),
{
    let first_of_this_month = Date { year: now.year, month: now.month, day: 1 };
    let start = previous_month(first_of_this_month).unwrap();
    let end = end_of_month(start).unwrap();
    ReportPeriod { start, end }
}

} // verus!
