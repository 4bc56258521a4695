use vstd::prelude::*;
use crate::date::Date;
use crate::date::date_le;

verus! {

/// Whether a period still accepts postings.
#[derive(Clone, Copy, Debug, PartialEq, Eq, Structural)]
pub enum PeriodStatus {
    Open,
    Closed,
}

/// An accounting period: an inclusive date range with an open/closed
/// status.
#[derive(Clone, Copy, Debug, PartialEq, Eq, Structural)]
pub struct Period {
    pub start_date: Date,
    pub end_date: Date,
    pub status: PeriodStatus,
}

impl Period {
    /// A fresh period over the given range, starting out open.
    pub fn new(start: Date, end: Date) -> (r: Period)
        ensures
            r == (Period { start_date: start, end_date: end, status: PeriodStatus::Open }),
    {
        Period { start_date: start, end_date: end, status: PeriodStatus::Open }
    }

    /// Marks the period closed; closing an already closed period is a
    /// no-op, so the call is idempotent.
    pub fn close(&mut self)
        ensures
            *final(self) == (Period {
                status: PeriodStatus::Closed,
                ..*old(self)
            }),
    {
        self.status = PeriodStatus::Closed;
    }

    pub fn is_open(&self) -> (r: bool)
        ensures
            r == (self.status == PeriodStatus::Open),
    {
        matches!(self.status, PeriodStatus::Open)
    }

    /// Inclusive range check: start and end dates both count as inside.
    pub fn contains_date(&self, date: Date) -> (r: bool)
        ensures
            r == (date_le(self.start_date, date) && date_le(date, self.end_date)),
    {
        self.start_date.le(&date) && date.le(&self.end_date)
    }
}

/// An ordered list of periods; the current period is the last one added
/// (positional, not derived from the dates).
#[derive(Debug)]
pub struct PeriodManager {
    pub periods: Vec<Period>,
}

impl PeriodManager {
    /// A manager with no periods.
    pub fn new() -> (r: PeriodManager)
        ensures
            r.periods@.len() == 0,
    {
        PeriodManager { periods: Vec::new() }
    }

    /// Appends the period; it becomes the current one.
    pub fn add_period(&mut self, period: Period)
        ensures
            final(self).periods@ == old(self).periods@.push(period),
    {
        self.periods.push(period);
    }

    /// The last period added, or `None` while the list is empty.
    pub fn get_current_period(&self) -> (r: Option<Period>)
        ensures
            r is Some <==> self.periods@.len() > 0,
            r matches Some(p) ==> p == self.periods@.last(),
    {
        if self.periods.len() == 0 {
            None
        } else {
            Some(self.periods[self.periods.len() - 1])
        }
    }

    /// Closes the current (last) period; earlier periods are untouched,
    /// and with no period the call is a no-op.
    pub fn close_current_period(&mut self)
        ensures
            old(self).periods@.len() == 0 ==> final(self).periods@ == old(self).periods@,
            old(self).periods@.len() > 0 ==> final(self).periods@ == old(self).periods@.update(
                old(self).periods@.len() - 1,
                (Period { status: PeriodStatus::Closed, ..old(self).periods@.last() }),
            ),
    {
        let n = self.periods.len();
        if n > 0 {
            let last = self.periods[n - 1];
            self.periods.set(
                n - 1,
                Period { start_date: last.start_date, end_date: last.end_date, status: PeriodStatus::Closed },
            );
        }
    }

    /// True exactly when the current (last) period is open and the date
    /// falls inside its range; with no period the answer is no.
    pub fn is_date_in_open_period(&self, date: Date) -> (r: bool)
        ensures
            r == (self.periods@.len() > 0 && self.periods@.last().status == PeriodStatus::Open
                && date_le(self.periods@.last().start_date, date) && date_le(
                date,
                self.periods@.last().end_date,
            )),
    {
        match self.get_current_period() {
            Some(p) => p.is_open() && p.contains_date(date),
            None => false,
        }
    }
}

} // verus!
