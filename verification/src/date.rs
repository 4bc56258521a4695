use vstd::prelude::*;

verus! {

/// A calendar date held as plain year, month and day numbers.
///
/// The ledger core never validates calendar bounds (that is left to the
/// callers that parse dates); it only stores dates and compares them, and
/// dates compare lexicographically by year, then month, then day.
#[derive(Clone, Copy, Debug, PartialEq, Eq, Structural, Hash)]
pub struct Date {
    pub year: i32,
    pub month: u8,
    pub day: u8,
}

/// The order on dates: year first, then month, then day.
pub open spec fn date_le(a: Date, b: Date) -> bool {
    if a.year != b.year {
        a.year < b.year
    } else if a.month != b.month {
        a.month < b.month
    } else {
        a.day <= b.day
    }
}

impl Date {
    pub fn from_ymd(year: i32, month: u8, day: u8) -> (d: Date)
        ensures
            d == (Date { year, month, day }),
    {
        Date { year, month, day }
    }

    /// True when `self` falls on or before `other`.
    pub fn le(&self, other: &Date) -> (r: bool)
        ensures
            r == date_le(*self, *other),
    {
        if self.year != other.year {
            self.year < other.year
        } else if self.month != other.month {
            self.month < other.month
        } else {
            self.day <= other.day
        }
    }
}

} // verus!
