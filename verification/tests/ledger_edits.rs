use networth_db::changes::RowChange;
use networth_db::entry::Entry;
use networth_db::error::LedgerError;
use networth_db::ledger::{EntryPatch, Ledger};

const SCOPE: u128 = 7;

fn entry(id: u128, sequence_number: i64, amount: i64) -> Entry {
    Entry {
        id,
        scope_id: SCOPE,
        sequence_number,
        date: 1_700_000_000,
        amount,
        balance: 0,
        ref_no: format!("ref-{}", id),
        description: format!("entry {}", id),
    }
}

fn ledger_of(rows: &[(u128, i64, i64)]) -> Ledger {
    let mut ledger = Ledger::new(SCOPE);
    for (id, sequence_number, amount) in rows {
        ledger.insert(entry(*id, *sequence_number, *amount)).unwrap();
    }
    ledger
}

fn numbers(ledger: &Ledger) -> Vec<i64> {
    ledger.entries().iter().map(|e| e.sequence_number).collect()
}

fn amounts(ledger: &Ledger) -> Vec<i64> {
    ledger.entries().iter().map(|e| e.amount).collect()
}

fn balances(ledger: &Ledger) -> Vec<i64> {
    ledger.entries().iter().map(|e| e.balance).collect()
}

fn ids(ledger: &Ledger) -> Vec<u128> {
    ledger.entries().iter().map(|e| e.id).collect()
}

#[test]
fn delete_closes_gap() {
    let mut ledger = ledger_of(&[(1, 1, 10), (2, 2, -3), (3, 3, 5), (4, 4, 2)]);
    assert_eq!(numbers(&ledger), vec![1, 2, 3, 4]);
    assert_eq!(balances(&ledger), vec![10, 7, 12, 14]);

    let changes = ledger.delete(2).unwrap();

    assert_eq!(numbers(&ledger), vec![1, 2, 3]);
    assert_eq!(amounts(&ledger), vec![10, 5, 2]);
    assert_eq!(balances(&ledger), vec![10, 15, 17]);
    assert_eq!(ids(&ledger), vec![1, 3, 4]);
    assert_eq!(
        changes,
        vec![
            RowChange::Delete { id: 2 },
            RowChange::Update { id: 3, sequence_number: 2, balance: 15 },
            RowChange::Update { id: 4, sequence_number: 3, balance: 17 },
        ]
    );
    assert!(ledger.is_consistent());
}

#[test]
fn insert_shifts_only_the_unbroken_run() {
    let k: i64 = 5;
    let mut ledger = ledger_of(&[(1, k, 100), (2, k + 1, 20), (3, k + 3, 3), (4, k + 4, 4)]);
    assert_eq!(balances(&ledger), vec![100, 120, 123, 127]);

    let changes = ledger.insert(entry(9, k, 1000)).unwrap();

    assert_eq!(ids(&ledger), vec![9, 1, 2, 3, 4]);
    assert_eq!(numbers(&ledger), vec![k, k + 1, k + 2, k + 3, k + 4]);
    assert_eq!(balances(&ledger), vec![1000, 1100, 1120, 1123, 1127]);
    assert_eq!(
        changes,
        vec![
            RowChange::Update { id: 4, sequence_number: k + 4, balance: 1127 },
            RowChange::Update { id: 3, sequence_number: k + 3, balance: 1123 },
            RowChange::Update { id: 2, sequence_number: k + 2, balance: 1120 },
            RowChange::Update { id: 1, sequence_number: k + 1, balance: 1100 },
            RowChange::Insert(Entry { balance: 1000, ..entry(9, k, 1000) }),
        ]
    );
}

#[test]
fn insert_takes_balance_from_entry_below() {
    let mut ledger = ledger_of(&[(1, 1, 10), (2, 4, 5)]);
    ledger.insert(entry(3, 3, 7)).unwrap();
    assert_eq!(numbers(&ledger), vec![1, 3, 4]);
    assert_eq!(balances(&ledger), vec![10, 17, 22]);
    let found = ledger.get(3).unwrap();
    assert_eq!(found.balance, 17);
    assert!(ledger.get(99).is_none());
}

#[test]
fn insert_refusals_leave_ledger_unchanged() {
    let mut ledger = ledger_of(&[(1, 1, 10), (2, 2, 5)]);

    let mut foreign = entry(5, 1, 1);
    foreign.scope_id = SCOPE + 1;
    assert_eq!(ledger.insert(foreign), Err(LedgerError::ValidationFailure));
    assert_eq!(ledger.insert(entry(5, 0, 1)), Err(LedgerError::ValidationFailure));
    assert_eq!(ledger.insert(entry(2, 9, 1)), Err(LedgerError::ConstraintViolation));
    assert_eq!(ledger.insert(entry(5, 3, i64::MAX)), Err(LedgerError::ValidationFailure));
    assert_eq!(ledger.insert(entry(5, 1, i64::MAX - 12)), Err(LedgerError::ValidationFailure));

    assert_eq!(numbers(&ledger), vec![1, 2]);
    assert_eq!(balances(&ledger), vec![10, 15]);
}

#[test]
fn insert_refuses_shift_past_largest_number() {
    let mut ledger = ledger_of(&[(1, i64::MAX - 1, 1), (2, i64::MAX, 1)]);
    assert_eq!(ledger.insert(entry(3, i64::MAX - 1, 1)), Err(LedgerError::ValidationFailure));
    assert_eq!(numbers(&ledger), vec![i64::MAX - 1, i64::MAX]);
    ledger.insert(entry(3, i64::MAX - 2, 1)).unwrap();
    assert_eq!(numbers(&ledger), vec![i64::MAX - 2, i64::MAX - 1, i64::MAX]);
}

#[test]
fn delete_of_missing_entry_is_not_found() {
    let mut ledger = ledger_of(&[(1, 1, 10)]);
    assert_eq!(ledger.delete(2), Err(LedgerError::NotFound));
    assert_eq!(numbers(&ledger), vec![1]);
}

#[test]
fn update_moves_entry_and_rebalances() {
    let mut ledger = ledger_of(&[(1, 1, 10), (2, 2, -3), (3, 3, 5), (4, 4, 2)]);
    let patch = EntryPatch {
        sequence_number: Some(1),
        date: None,
        amount: Some(100),
        ref_no: None,
        description: Some("moved".to_string()),
    };
    let changes = ledger.update(3, patch).unwrap();

    assert_eq!(ids(&ledger), vec![3, 1, 2, 4]);
    assert_eq!(numbers(&ledger), vec![1, 2, 3, 4]);
    assert_eq!(amounts(&ledger), vec![100, 10, -3, 2]);
    assert_eq!(balances(&ledger), vec![100, 110, 107, 109]);
    assert_eq!(ledger.get(3).unwrap().description, "moved");
    assert_eq!(ledger.get(3).unwrap().ref_no, "ref-3");
    assert!(ledger.is_consistent());
    assert_eq!(changes[0], RowChange::Delete { id: 3 });
    assert_eq!(changes[1], RowChange::Update { id: 4, sequence_number: 3, balance: 9 });
}

#[test]
fn update_without_new_number_keeps_position() {
    let mut ledger = ledger_of(&[(1, 1, 10), (2, 2, -3), (3, 3, 5)]);
    let patch = EntryPatch {
        sequence_number: None,
        date: Some(5),
        amount: Some(-4),
        ref_no: Some("r".to_string()),
        description: None,
    };
    ledger.update(2, patch).unwrap();
    assert_eq!(ids(&ledger), vec![1, 2, 3]);
    assert_eq!(numbers(&ledger), vec![1, 2, 3]);
    assert_eq!(balances(&ledger), vec![10, 6, 11]);
    assert_eq!(ledger.get(2).unwrap().date, 5);
    assert_eq!(ledger.get(2).unwrap().ref_no, "r");
}

#[test]
fn update_refusals_leave_ledger_unchanged() {
    let mut ledger = ledger_of(&[(1, 1, 10), (2, 2, -3)]);
    let none = || EntryPatch {
        sequence_number: None,
        date: None,
        amount: None,
        ref_no: None,
        description: None,
    };
    assert_eq!(ledger.update(9, none()), Err(LedgerError::NotFound));
    let below = EntryPatch { sequence_number: Some(0), ..none() };
    assert_eq!(ledger.update(1, below), Err(LedgerError::ValidationFailure));
    let large = EntryPatch { amount: Some(i64::MAX), ..none() };
    assert_eq!(ledger.update(2, large), Err(LedgerError::ValidationFailure));
    assert_eq!(numbers(&ledger), vec![1, 2]);
    assert_eq!(balances(&ledger), vec![10, 7]);
}

#[test]
fn ledger_from_rows_accepts_only_well_formed_rows() {
    let stored = |id: u128, number: i64, balance: i64| Entry { balance, ..entry(id, number, 5) };
    let ledger = Ledger::from_rows(SCOPE, vec![stored(1, 2, 5), stored(2, 9, 10)]).unwrap();
    assert_eq!(ledger.scope_id(), SCOPE);
    assert_eq!(numbers(&ledger), vec![2, 9]);
    assert_eq!(ledger.len(), 2);
    assert!(Ledger::from_rows(SCOPE, vec![]).unwrap().entries().is_empty());

    let refused = |rows: Vec<Entry>| {
        assert_eq!(Ledger::from_rows(SCOPE, rows).unwrap_err(), LedgerError::ValidationFailure)
    };
    refused(vec![stored(1, 2, 5), stored(2, 2, 10)]);
    refused(vec![stored(1, 3, 5), stored(2, 2, 10)]);
    refused(vec![stored(1, 0, 5)]);
    refused(vec![stored(1, 1, 5), stored(1, 2, 10)]);
    let mut foreign = stored(1, 1, 5);
    foreign.scope_id = SCOPE + 1;
    refused(vec![foreign]);
}

#[test]
fn rebalancing_repairs_balances_from_a_number_on() {
    let stored = |id: u128, number: i64, balance: i64| Entry { balance, ..entry(id, number, 5) };
    let rows = vec![stored(1, 1, 5), stored(2, 2, 99), stored(3, 4, -1), stored(4, 5, 20)];
    let mut ledger = Ledger::from_rows(SCOPE, rows).unwrap();
    assert!(!ledger.is_consistent());

    let changes = ledger.rebalance_from(3).unwrap();
    assert_eq!(balances(&ledger), vec![5, 99, 104, 109]);
    assert_eq!(
        changes,
        vec![
            RowChange::Update { id: 3, sequence_number: 4, balance: 104 },
            RowChange::Update { id: 4, sequence_number: 5, balance: 109 },
        ]
    );
    ledger.rebalance_from(1).unwrap();
    assert_eq!(balances(&ledger), vec![5, 10, 15, 20]);
    assert!(ledger.is_consistent());
    assert_eq!(ledger.rebalance_from(9).unwrap(), vec![]);

    let rows = vec![stored(1, 1, i64::MAX), stored(2, 2, 0)];
    let mut ledger = Ledger::from_rows(SCOPE, rows).unwrap();
    assert_eq!(ledger.rebalance_from(2), Err(LedgerError::ValidationFailure));
    assert_eq!(balances(&ledger), vec![i64::MAX, 0]);
}

#[test]
fn update_repairs_balances_from_the_lower_number() {
    let stored = |id: u128, number: i64, balance: i64| Entry { balance, ..entry(id, number, 5) };
    let rows = vec![stored(1, 1, 5), stored(2, 2, 110), stored(3, 3, 115), stored(4, 4, 120)];
    let mut ledger = Ledger::from_rows(SCOPE, rows).unwrap();
    let patch = EntryPatch {
        sequence_number: Some(4),
        date: None,
        amount: None,
        ref_no: None,
        description: None,
    };
    ledger.update(2, patch).unwrap();
    assert_eq!(ids(&ledger), vec![1, 3, 4, 2]);
    assert_eq!(numbers(&ledger), vec![1, 2, 3, 4]);
    assert_eq!(balances(&ledger), vec![5, 10, 15, 20]);
}

#[test]
fn edits_on_a_window_equal_edits_on_the_whole() {
    let rows: Vec<(u128, i64, i64)> = vec![(1, 1, 10), (2, 2, -3), (3, 3, 5), (4, 6, 2), (5, 7, 1)];
    let window_from = |whole: &Ledger, from: i64| -> Ledger {
        let all = whole.entries();
        let below = all.iter().rposition(|e| e.sequence_number < from);
        let start = below.unwrap_or(0);
        Ledger::from_rows(SCOPE, all[start..].iter().map(|e| e.duplicate()).collect()).unwrap()
    };
    let tail = |whole: &Ledger, part: &Ledger| {
        let all = whole.entries();
        assert_eq!(&all[all.len() - part.len()..], &part.entries()[..]);
    };

    let mut whole = ledger_of(&rows);
    let mut part = window_from(&whole, 3);
    assert_eq!(part.len(), 4);
    assert_eq!(whole.insert(entry(9, 3, 7)), part.insert(entry(9, 3, 7)));
    tail(&whole, &part);

    let mut whole = ledger_of(&rows);
    let mut part = window_from(&whole, 3);
    assert_eq!(whole.delete(3), part.delete(3));
    tail(&whole, &part);

    for (id, old_number, new_number) in [(4u128, 6i64, 2i64), (2, 2, 7), (3, 3, 3)] {
        let patch = || EntryPatch {
            sequence_number: Some(new_number),
            date: None,
            amount: Some(11),
            ref_no: None,
            description: None,
        };
        let start = networth_db::window::update_window_start(old_number, &patch());
        assert_eq!(start, old_number.min(new_number));
        let mut whole = ledger_of(&rows);
        let mut part = window_from(&whole, start);
        assert_eq!(whole.update(id, patch()), part.update(id, patch()));
        tail(&whole, &part);
    }
    let none =
        EntryPatch { sequence_number: None, date: None, amount: None, ref_no: None, description: None };
    assert_eq!(networth_db::window::update_window_start(5, &none), 5);
}
