// Amounts are written in minor units (hundredths), so 100.00 is
// Amount::new(10000) and 123.45 is Amount::new(12345).
use gl_core::AccountCode;
use gl_core::Amount;
use gl_core::Date;
use gl_core::JournalEntry;
use gl_core::JournalLine;
use gl_core::Ledger;

// --- AccountCode tests ---

#[test]
fn test_account_code_valid() {
    let code = AccountCode::new("1111").unwrap();
    assert_eq!(code.as_str(), "1111");
}

#[test]
fn test_account_code_invalid_format_fails() {
    let result = AccountCode::new("invalid");
    assert!(result.is_err(), "AccountCode creation should fail for invalid formats.");
}

// --- JournalLine tests ---

#[test]
fn test_journal_line_negative_amount_fails() {
    let code = AccountCode::new("5111").unwrap();
    // Test for a negative debit amount
    let result = JournalLine::new(code, Amount::new(-10000), Amount::new(0));
    assert!(result.is_err(), "JournalLine should not allow negative amounts.");
}

// --- JournalEntry tests ---

#[test]
fn test_journal_entry_balanced() {
    let entry = JournalEntry::new(
        Date::from_ymd(2025, 1, 1),
        vec![
            // Debit $100
            JournalLine::new(AccountCode::new("5111").unwrap(), Amount::new(10000), Amount::new(0))
                .unwrap(),
            // Credit $100
            JournalLine::new(AccountCode::new("1111").unwrap(), Amount::new(0), Amount::new(10000))
                .unwrap(),
        ],
        "Sale".to_string(),
    )
    .unwrap();
    assert!(entry.is_balanced());
}

#[test]
fn test_unbalanced_entry_fails_on_creation() {
    let result = JournalEntry::new(
        Date::from_ymd(2025, 1, 1),
        vec![
            // Total debit = 100, total credit = 90
            JournalLine::new(AccountCode::new("5111").unwrap(), Amount::new(10000), Amount::new(0))
                .unwrap(),
            JournalLine::new(AccountCode::new("1111").unwrap(), Amount::new(0), Amount::new(9000))
                .unwrap(),
        ],
        "Unbalanced".to_string(),
    );
    assert!(result.is_err(), "JournalEntry creation must fail if debits do not equal credits.");
}

#[test]
fn test_zero_sum_balanced_entry() {
    let entry = JournalEntry::new(
        Date::from_ymd(2025, 1, 1),
        vec![
            JournalLine::new(AccountCode::new("5111").unwrap(), Amount::new(0), Amount::new(0))
                .unwrap(),
            JournalLine::new(AccountCode::new("1111").unwrap(), Amount::new(0), Amount::new(0))
                .unwrap(),
        ],
        "Zero sum transaction".to_string(),
    )
    .unwrap();
    assert!(
        entry.is_balanced(),
        "A zero-sum entry with at least two lines must still be considered balanced."
    );
}

#[test]
fn test_decimal_amount_entry_is_balanced() {
    let entry = JournalEntry::new(
        Date::from_ymd(2025, 1, 1),
        vec![
            // 123.45 on both sides
            JournalLine::new(AccountCode::new("5111").unwrap(), Amount::new(12345), Amount::new(0))
                .unwrap(),
            JournalLine::new(AccountCode::new("1111").unwrap(), Amount::new(0), Amount::new(12345))
                .unwrap(),
        ],
        "Decimal amount".to_string(),
    )
    .unwrap();
    assert!(entry.is_balanced());
}

// --- Ledger tests ---

#[test]
fn test_ledger_post_single_entry() {
    let mut ledger = Ledger::new();
    let entry = JournalEntry::new(
        Date::from_ymd(2025, 1, 1),
        vec![
            JournalLine::new(AccountCode::new("5111").unwrap(), Amount::new(10000), Amount::new(0))
                .unwrap(),
            JournalLine::new(AccountCode::new("1111").unwrap(), Amount::new(0), Amount::new(10000))
                .unwrap(),
        ],
        "Sale".to_string(),
    )
    .unwrap();

    ledger.post_entry(entry).unwrap();

    let tb = ledger.trial_balance();
    assert_eq!(tb.total_debit, Amount::new(10000));
    assert_eq!(tb.total_credit, Amount::new(10000));
}

#[test]
fn test_ledger_multiple_entries() {
    let mut ledger = Ledger::new();

    // Entry 1: debit 5111 (revenue) $100, credit 1111 (cash) $100
    let entry1 = JournalEntry::new(
        Date::from_ymd(2025, 1, 1),
        vec![
            JournalLine::new(AccountCode::new("5111").unwrap(), Amount::new(10000), Amount::new(0))
                .unwrap(),
            JournalLine::new(AccountCode::new("1111").unwrap(), Amount::new(0), Amount::new(10000))
                .unwrap(),
        ],
        "Sale 1".to_string(),
    )
    .unwrap();

    // Entry 2: debit 621 (expense) $50, credit 1111 (cash) $50
    let entry2 = JournalEntry::new(
        Date::from_ymd(2025, 1, 2),
        vec![
            JournalLine::new(AccountCode::new("621").unwrap(), Amount::new(5000), Amount::new(0))
                .unwrap(),
            JournalLine::new(AccountCode::new("1111").unwrap(), Amount::new(0), Amount::new(5000))
                .unwrap(),
        ],
        "Purchase 1".to_string(),
    )
    .unwrap();

    ledger.post_entry(entry1).unwrap();
    ledger.post_entry(entry2).unwrap();

    // Total debits: 100 (5111) + 50 (621) = 150
    // Total credits: 100 (1111) + 50 (1111) = 150
    let tb = ledger.trial_balance();
    assert_eq!(tb.total_debit, Amount::new(15000));
    assert_eq!(tb.total_credit, Amount::new(15000));
}

#[test]
fn test_ledger_get_account_balance() {
    let mut ledger = Ledger::new();
    let entry = JournalEntry::new(
        Date::from_ymd(2025, 1, 1),
        vec![
            JournalLine::new(AccountCode::new("5111").unwrap(), Amount::new(10000), Amount::new(0))
                .unwrap(),
            JournalLine::new(AccountCode::new("1111").unwrap(), Amount::new(0), Amount::new(10000))
                .unwrap(),
        ],
        "Sale".to_string(),
    )
    .unwrap();

    ledger.post_entry(entry).unwrap();

    // Check revenue account (5111)
    let balance_5111 = ledger.get_account_balance(&AccountCode::new("5111").unwrap()).unwrap();
    assert_eq!(balance_5111.debit_balance, Amount::new(10000));
    assert_eq!(balance_5111.credit_balance, Amount::new(0));

    // Check cash account (1111)
    let balance_1111 = ledger.get_account_balance(&AccountCode::new("1111").unwrap()).unwrap();
    assert_eq!(balance_1111.debit_balance, Amount::new(0));
    assert_eq!(balance_1111.credit_balance, Amount::new(10000));
}

#[test]
fn test_ledger_get_balance_for_non_existent_account() {
    let ledger = Ledger::new();
    // A valid format code that has never been posted to the ledger
    let unknown_code = AccountCode::new("9999").unwrap();

    let result = ledger.get_account_balance(&unknown_code);

    // The documented contract: an account never posted is absent, not a
    // zero-valued balance.
    assert!(result.is_none());
}
