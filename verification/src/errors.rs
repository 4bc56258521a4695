use vstd::prelude::*;
use crate::amount::Amount;

verus! {

/// Every failure a ledger operation can report.
///
/// `InvalidDate` is reserved for future date-range validation: no current
/// construction path returns it.
#[derive(Debug)]
pub enum LedgerError {
    /// A journal entry whose debits and credits do not sum to the same
    /// total; carries the two totals, debit first.
    UnbalancedEntry(Amount, Amount),
    /// An account code that is empty or holds a non-digit character;
    /// carries the rejected code.
    InvalidAccountCode(String),
    /// A debit or credit below zero; carries the offending amount.
    NegativeAmount(Amount),
    /// Reserved: a date outside the permitted range.
    InvalidDate,
}

} // verus!
