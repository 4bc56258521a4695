use vstd::prelude::*;
use vstd::string::StrSliceExecFns;
use crate::errors::LedgerError;

verus! {

/// True when `c` is one of the decimal digit characters `'0'` to `'9'`.
pub open spec fn is_digit_char(c: char) -> bool {
    48 <= c as u32 <= 57
}

/// A well-formed account code: non-empty and made of decimal digits only.
pub open spec fn valid_code(s: Seq<char>) -> bool {
    s.len() > 0 && (forall|i: int| 0 <= i < s.len() ==> is_digit_char(s[i]))
}

/// A validated identifier for a ledger account, used as a unique key.
#[derive(Debug, Eq, Hash)]
pub struct AccountCode(pub String);

impl View for AccountCode {
    type V = Seq<char>;

    open spec fn view(&self) -> Seq<char> {
        self.0@
    }
}

impl Clone for AccountCode {
    fn clone(&self) -> (r: Self)
        ensures
            r@ == self@,
    {
        AccountCode(self.0.clone())
    }
}

impl PartialEq for AccountCode {
    fn eq(&self, other: &Self) -> (r: bool) {
        self.0 == other.0
    }
}

impl vstd::std_specs::cmp::PartialEqSpecImpl for AccountCode {
    open spec fn obeys_eq_spec() -> bool {
        true
    }

    open spec fn eq_spec(&self, other: &Self) -> bool {
        self.0@ == other.0@
    }
}

impl AccountCode {
    /// Accepts exactly the non-empty all-digit strings; any other code is
    /// returned inside `InvalidAccountCode`.
    pub fn new(code: &str) -> (r: Result<AccountCode, LedgerError>)
        ensures
            r is Ok <==> valid_code(code@),
            r matches Ok(ac) ==> ac@ == code@,
            r matches Err(e) ==> (e matches LedgerError::InvalidAccountCode(s) && s@ == code@),
    {
        let n = code.unicode_len();
        if n == 0 {
            return Err(LedgerError::InvalidAccountCode(code.to_owned()));
        }
        let mut i: usize = 0;
        while i < n
            invariant
                0 <= i <= n,
                n == code@.len(),
                forall|j: int| 0 <= j < i ==> is_digit_char(code@[j]),
            decreases n - i,
        {
            let c = code.get_char(i);
            let u = c as u32;
            if u < 48 || u > 57 {
                return Err(LedgerError::InvalidAccountCode(code.to_owned()));
            }
            i += 1;
        }
        Ok(AccountCode(code.to_owned()))
    }

    /// Returns the underlying string.
    pub fn as_str(&self) -> (r: &str)
        ensures
            r@ == self@,
    {
        self.0.as_str()
    }
}

} // verus!
