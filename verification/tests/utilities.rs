use chrono::{TimeZone, Utc};
use networth_db::error::LedgerError;
use networth_db::readers::types::FileType;
use networth_db::statement::{entries_from_statement, AccountType, InstitutionName, Statement, Transaction};
use networth_db::utils::{
    date_str_to_datetime, fresh_ids, get_current_datetime, parse_date, try_date_str_to_datetime,
};

#[test]
fn test_date_str_to_datetime() {
    let date = "01/01/2023";
    let expected = Utc.with_ymd_and_hms(2023, 1, 1, 0, 0, 0).unwrap();
    assert_eq!(date_str_to_datetime(date), expected.timestamp());

    let date_with_spaces = "  01/01/2023  ";
    assert_eq!(date_str_to_datetime(date_with_spaces), expected.timestamp());
}

#[test]
fn test_get_current_datetime() {
    let before = Utc::now();
    let current = get_current_datetime();
    let after = Utc::now();

    assert!(current >= before.timestamp());
    assert!(current <= after.timestamp());
}

#[test]
fn dates_that_are_no_dates() {
    assert_eq!(parse_date("2023-01-01"), None);
    assert_eq!(try_date_str_to_datetime("2023-01-01"), None);
    assert_eq!(try_date_str_to_datetime("31/02/2023"), None);
    assert_eq!(try_date_str_to_datetime(""), None);
    assert_eq!(try_date_str_to_datetime("02/01/2021"), Some(1_609_545_600));
    assert_eq!(parse_date(" 31/03/1910"), Some(-1_885_766_400));
}

#[test]
fn fresh_identifiers_differ() {
    let ids = fresh_ids(4);
    assert_eq!(ids.len(), 4);
    for i in 0..4 {
        for j in (i + 1)..4 {
            assert_ne!(ids[i], ids[j]);
        }
    }
    assert!(fresh_ids(0).is_empty());
}

#[test]
fn names_of_kinds() {
    assert_eq!(FileType::Xls.to_string(), "xls");
    assert_eq!(FileType::Pdf.to_string(), "pdf");
    assert_eq!(AccountType::CheckingAccount.code(), "checking_account");
    assert_eq!(AccountType::CreditCard.code(), "credit_card");
    assert_eq!(AccountType::FixedDeposit.code(), "fixed_deposit");
    assert_eq!(AccountType::SavingsAccount.code(), "savings_account");
    assert_eq!(AccountType::Unknown.code(), "unknown");
    assert_eq!(InstitutionName::Hdfc.code(), "Hdfc");
    assert_eq!(InstitutionName::StateBankOfIndia.code(), "StateBankOfIndia");
    assert_eq!(LedgerError::NotFound.code(), "error.ledger.not_found");
    assert_eq!(LedgerError::ConstraintViolation.code(), "error.ledger.constraint_violation");
    assert_eq!(LedgerError::ValidationFailure.code(), "error.ledger.validation_failure");
    assert_eq!(LedgerError::StoreFailure.code(), "error.ledger.store_failure");
}

#[test]
fn statement_lines_become_entries() {
    let line = |withdrawal, deposit| Transaction {
        date: 5,
        description: "d".to_string(),
        ref_no: "r".to_string(),
        withdrawal,
        deposit,
        balance: 900,
    };
    assert_eq!(line(100, 0).amount(), Ok(-100));
    assert_eq!(line(0, 200).amount(), Ok(200));
    assert_eq!(line(0, 0).amount(), Ok(0));
    assert_eq!(line(100, 200).amount(), Ok(200));
    assert_eq!(line(-1, 0).amount(), Err(LedgerError::ValidationFailure));
    assert_eq!(line(0, -1).amount(), Err(LedgerError::ValidationFailure));

    let statement = Statement {
        account_number: "1".to_string(),
        account_type: AccountType::Unknown,
        date: 9,
        transactions: vec![line(100, 0), line(0, 200)],
    };
    let entries = entries_from_statement(&statement, &vec![7, 8], 3).unwrap();
    assert_eq!(entries.len(), 2);
    assert_eq!(
        (entries[0].id, entries[0].scope_id, entries[0].sequence_number, entries[0].amount),
        (7, 3, 1, -100)
    );
    assert_eq!(
        (entries[1].id, entries[1].sequence_number, entries[1].amount, entries[1].balance),
        (8, 2, 200, 900)
    );
    assert_eq!(entries[1].date, 5);
    assert_eq!(entries_from_statement(&statement, &vec![7], 3), Err(LedgerError::ValidationFailure));
}
