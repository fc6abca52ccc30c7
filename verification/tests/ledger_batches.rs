use networth_db::balance::{balances_consistent, recalculate_balance};
use networth_db::changes::RowChange;
use networth_db::entry::{build_staged_transaction, build_transaction, Entry};
use networth_db::error::LedgerError;
use networth_db::ledger::Ledger;

fn entry(id: u128, scope_id: u128, sequence_number: i64, amount: i64, balance: i64) -> Entry {
    Entry {
        id,
        scope_id,
        sequence_number,
        date: 1_609_459_200,
        amount,
        balance,
        ref_no: format!("r{}", id),
        description: format!("d{}", id),
    }
}

fn numbers(ledger: &Ledger) -> Vec<i64> {
    ledger.entries().iter().map(|e| e.sequence_number).collect()
}

fn balances(ledger: &Ledger) -> Vec<i64> {
    ledger.entries().iter().map(|e| e.balance).collect()
}

#[test]
fn recalculation_carries_the_balance_forward() {
    let rows = vec![entry(1, 1, 4, 10, 0), entry(2, 1, 5, -3, 99), entry(3, 1, 9, 5, -1)];
    let updates = recalculate_balance(&rows, 100).unwrap();
    assert_eq!(updates, vec![(1, 110), (2, 107), (3, 112)]);
    assert_eq!(recalculate_balance(&[], 5).unwrap(), Vec::<(u128, i64)>::new());
}

#[test]
fn recalculation_refuses_a_balance_out_of_range() {
    let rows = vec![entry(1, 1, 1, 1, 0), entry(2, 1, 2, -5, 0)];
    assert_eq!(recalculate_balance(&rows, i64::MAX), Err(LedgerError::ValidationFailure));
    let rows = vec![entry(1, 1, 1, -1, 0)];
    assert_eq!(recalculate_balance(&rows, i64::MIN), Err(LedgerError::ValidationFailure));
    let rows = vec![entry(1, 1, 1, -1, 0), entry(2, 1, 2, 1, 0)];
    assert_eq!(
        recalculate_balance(&rows, i64::MAX).unwrap(),
        vec![(1, i64::MAX - 1), (2, i64::MAX)]
    );
}

#[test]
fn consistency_check_follows_the_prefix_sums() {
    assert!(balances_consistent(&[]));
    assert!(balances_consistent(&[entry(1, 1, 1, 10, 10), entry(2, 1, 5, -3, 7)]));
    assert!(!balances_consistent(&[entry(1, 1, 1, 10, 10), entry(2, 1, 5, -3, 8)]));
    assert!(!balances_consistent(&[entry(1, 1, 1, 10, 11)]));
}

#[test]
fn bulk_load_numbers_from_one_with_running_balances() {
    let mut ledger = Ledger::new(42);
    let batch = vec![entry(10, 42, 77, 500, 9), entry(11, 42, 3, -200, 9), entry(12, 42, 3, 50, 9)];
    let changes = ledger.bulk_insert(batch).unwrap();

    assert_eq!(numbers(&ledger), vec![1, 2, 3]);
    assert_eq!(balances(&ledger), vec![500, 300, 350]);
    let ids: Vec<u128> = ledger.entries().iter().map(|e| e.id).collect();
    assert_eq!(ids, vec![10, 11, 12]);
    assert_eq!(changes.len(), 3);
    assert_eq!(changes[1], RowChange::Insert(entry(11, 42, 2, -200, 300)));
    assert!(ledger.is_consistent());
    assert_eq!(ledger.max_sequence_number(), 3);
    assert_eq!(ledger.closing_balance(), 350);
}

#[test]
fn bulk_load_goes_on_after_the_highest_number() {
    let mut ledger = Ledger::new(42);
    ledger.insert(entry(1, 42, 4, 10, 0)).unwrap();
    ledger.insert(entry(2, 42, 9, 5, 0)).unwrap();
    ledger.bulk_insert(vec![entry(3, 42, 1, 1, 0), entry(4, 42, 1, 2, 0)]).unwrap();
    assert_eq!(numbers(&ledger), vec![4, 9, 10, 11]);
    assert_eq!(balances(&ledger), vec![10, 15, 16, 18]);
}

#[test]
fn bulk_load_refusals() {
    let mut ledger = Ledger::new(42);
    ledger.insert(entry(1, 42, 1, 10, 0)).unwrap();

    assert_eq!(ledger.bulk_insert(vec![]), Err(LedgerError::ValidationFailure));
    assert_eq!(
        ledger.bulk_insert(vec![entry(2, 42, 1, 1, 0), entry(3, 43, 1, 1, 0)]),
        Err(LedgerError::ValidationFailure)
    );
    assert_eq!(
        ledger.bulk_insert(vec![entry(2, 42, 1, 1, 0), entry(2, 42, 1, 1, 0)]),
        Err(LedgerError::ConstraintViolation)
    );
    assert_eq!(
        ledger.bulk_insert(vec![entry(1, 42, 1, 1, 0)]),
        Err(LedgerError::ConstraintViolation)
    );
    assert_eq!(
        ledger.bulk_insert(vec![entry(2, 42, 1, i64::MAX, 0)]),
        Err(LedgerError::ValidationFailure)
    );
    assert_eq!(numbers(&ledger), vec![1]);
    assert_eq!(balances(&ledger), vec![10]);

    let mut full = Ledger::new(42);
    full.insert(entry(1, 42, i64::MAX, 10, 0)).unwrap();
    assert_eq!(
        full.bulk_insert(vec![entry(2, 42, 1, 1, 0)]),
        Err(LedgerError::ValidationFailure)
    );
}

#[test]
fn promotion_renumbers_behind_the_mark() {
    let mut posted = Ledger::new(1);
    for (id, number) in [(1u128, 1i64), (2, 2), (3, 5)] {
        posted.insert(entry(id, 1, number, 10, 0)).unwrap();
    }
    let mut staged = Ledger::new(9);
    staged.bulk_insert(vec![entry(20, 9, 0, 7, 0), entry(21, 9, 0, -2, 0)]).unwrap();

    let changes = posted.promote_from(&staged, &vec![100, 101]).unwrap();

    assert_eq!(numbers(&posted), vec![1, 2, 5, 6, 7]);
    assert_eq!(balances(&posted), vec![10, 20, 30, 7, 5]);
    assert_eq!(posted.max_sequence_number(), 7);
    let last = posted.get(101).unwrap();
    assert_eq!(*last, entry_as(101, 1, 7, -2, 5, 21));
    assert_eq!(changes, vec![
        RowChange::Insert(entry_as(100, 1, 6, 7, 7, 20)),
        RowChange::Insert(entry_as(101, 1, 7, -2, 5, 21)),
    ]);
    assert_eq!(numbers(&staged), vec![1, 2]);
}

fn entry_as(id: u128, scope: u128, number: i64, amount: i64, balance: i64, texts: u128) -> Entry {
    Entry { id, ..entry(texts, scope, number, amount, balance) }
}

#[test]
fn promotion_refusals() {
    let mut posted = Ledger::new(1);
    posted.insert(entry(1, 1, i64::MAX - 1, 10, 0)).unwrap();
    let mut staged = Ledger::new(9);
    staged.bulk_insert(vec![entry(20, 9, 0, 7, 0), entry(21, 9, 0, -2, 0)]).unwrap();

    assert_eq!(posted.promote_from(&staged, &vec![100]), Err(LedgerError::ValidationFailure));
    assert_eq!(
        posted.promote_from(&staged, &vec![100, 101]),
        Err(LedgerError::ValidationFailure)
    );
    assert_eq!(numbers(&posted), vec![i64::MAX - 1]);

    let mut other = Ledger::new(1);
    other.insert(entry(1, 1, 1, 10, 0)).unwrap();
    assert_eq!(
        other.promote_from(&staged, &vec![100, 100]),
        Err(LedgerError::ConstraintViolation)
    );
    assert_eq!(other.promote_from(&staged, &vec![1, 2]), Err(LedgerError::ConstraintViolation));
    assert_eq!(numbers(&other), vec![1]);
}

#[test]
fn builders_fill_every_field_but_the_identifier() {
    let posted = build_transaction(25, 7, 1_000, 3, "ref".to_string(), "text".to_string());
    assert_eq!(posted, Entry {
        id: posted.id,
        scope_id: 7,
        sequence_number: 3,
        date: 1_000,
        amount: 25,
        balance: 0,
        ref_no: "ref".to_string(),
        description: "text".to_string(),
    });
    let staged = build_staged_transaction(-25, 8, 2_000, 975, 4, "r".to_string(), "t".to_string());
    assert_eq!(staged, Entry {
        id: staged.id,
        scope_id: 8,
        sequence_number: 4,
        date: 2_000,
        amount: -25,
        balance: 975,
        ref_no: "r".to_string(),
        description: "t".to_string(),
    });
    assert_ne!(posted.id, staged.id);
    assert_eq!(posted.duplicate(), posted);
}
