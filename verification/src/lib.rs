pub mod account;
pub mod amount;
pub mod coa;
pub mod date;
pub mod errors;
pub mod journal;
pub mod ledger;
pub mod period;

pub use account::AccountCode;
pub use amount::Amount;
pub use coa::Account;
pub use coa::CoaConfig;
pub use coa::create_vn_coa;
pub use date::Date;
pub use errors::LedgerError;
pub use journal::JournalEntry;
pub use journal::JournalLine;
pub use ledger::AccountBalance;
pub use ledger::Ledger;
pub use ledger::TrialBalance;
pub use period::Period;
pub use period::PeriodManager;
pub use period::PeriodStatus;
