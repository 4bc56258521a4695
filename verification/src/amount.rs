use vstd::prelude::*;

verus! {

/// A monetary amount, held as an exact count of minor currency units
/// (fixed-point arithmetic: one unit is the smallest currency fraction
/// the ledger tracks, so equality and sums are exact).
#[derive(Clone, Copy, Debug, PartialEq, Eq, Structural, Hash)]
pub struct Amount(pub i64);

impl View for Amount {
    type V = int;

    open spec fn view(&self) -> int {
        self.0 as int
    }
}

impl Amount {
    /// The zero amount.
    pub fn zero() -> (r: Amount)
        ensures
            r@ == 0,
    {
        Amount(0)
    }

    pub fn new(minor: i64) -> (r: Amount)
        ensures
            r@ == minor as int,
    {
        Amount(minor)
    }

    pub fn is_negative(&self) -> (r: bool)
        ensures
            r == (self@ < 0),
    {
        self.0 < 0
    }
}

} // verus!
