use vstd::prelude::*;
use crate::account::AccountCode;
use crate::account::valid_code;

verus! {

/// One record of a chart of accounts, as plain text fields.
#[derive(Debug)]
pub struct Account {
    pub code: String,
    pub name: String,
    pub classification: String,
    pub default_balance: String,
    pub description: String,
}

/// A chart of accounts: the reference list of accounts a ledger may use.
#[derive(Debug)]
pub struct CoaConfig {
    pub accounts: Vec<Account>,
}

/// A sample chart of account codes for Vietnamese Accounting Standards:
/// cash, bank, receivable, payable, revenue, cost, profit/loss and
/// retained earnings.
pub fn create_vn_coa() -> (r: Vec<AccountCode>)
    ensures
        r@.len() == 8,
        r@[0]@ == "1111"@,
        r@[1]@ == "1121"@,
        r@[2]@ == "131"@,
        r@[3]@ == "331"@,
        r@[4]@ == "5111"@,
        r@[5]@ == "621"@,
        r@[6]@ == "911"@,
        r@[7]@ == "421"@,
        forall|i: int| 0 <= i < 8 ==> valid_code(#[trigger] r@[i]@),
{
    proof {
        reveal_strlit("1111");
        reveal_strlit("1121");
        reveal_strlit("131");
        reveal_strlit("331");
        reveal_strlit("5111");
        reveal_strlit("621");
        reveal_strlit("911");
        reveal_strlit("421");
    }
    let mut r: Vec<AccountCode> = Vec::new();
    r.push(AccountCode::new("1111").unwrap());
    r.push(AccountCode::new("1121").unwrap());
    r.push(AccountCode::new("131").unwrap());
    r.push(AccountCode::new("331").unwrap());
    r.push(AccountCode::new("5111").unwrap());
    r.push(AccountCode::new("621").unwrap());
    r.push(AccountCode::new("911").unwrap());
    r.push(AccountCode::new("421").unwrap());
    r
}

} // verus!
