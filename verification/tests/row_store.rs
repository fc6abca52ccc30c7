use networth_db::changes::RowChange;
use networth_db::entry::Entry;
use networth_db::error::LedgerError;
use networth_db::ledger::{EntryPatch, Ledger};
use networth_db::replay::RowStore;

const SCOPE: u128 = 3;

fn entry(id: u128, sequence_number: i64, amount: i64) -> Entry {
    Entry {
        id,
        scope_id: SCOPE,
        sequence_number,
        date: 0,
        amount,
        balance: 0,
        ref_no: String::new(),
        description: String::new(),
    }
}

fn ledger_of(rows: &[(u128, i64, i64)]) -> Ledger {
    let mut ledger = Ledger::new(SCOPE);
    for (id, sequence_number, amount) in rows {
        ledger.insert(entry(*id, *sequence_number, *amount)).unwrap();
    }
    ledger
}

fn keys(rows: &Vec<Entry>) -> Vec<(u128, i64, i64)> {
    rows.iter().map(|e| (e.id, e.sequence_number, e.balance)).collect()
}

// Performs the writes one by one and holds after each that no number and no
// identifier occurs twice.
fn replay_step_by_step(store: &mut RowStore, changes: &Vec<RowChange>) {
    for change in changes {
        store.write(change).unwrap();
        let rows = store.rows();
        for i in 0..rows.len() {
            for j in (i + 1)..rows.len() {
                assert!(rows[i].sequence_number < rows[j].sequence_number);
                assert_ne!(rows[i].id, rows[j].id);
            }
        }
    }
}

#[test]
fn insert_writes_replay_without_collision() {
    let mut ledger = ledger_of(&[(1, 1, 10), (2, 2, 20), (3, 3, 30), (4, 5, 40), (5, 6, 50)]);
    let mut store = RowStore::holding(&ledger);
    let changes = ledger.insert(entry(9, 2, 7)).unwrap();
    replay_step_by_step(&mut store, &changes);
    assert_eq!(store.rows(), ledger.entries());
    assert_eq!(
        keys(store.rows()),
        vec![(1, 1, 10), (9, 2, 17), (2, 3, 37), (3, 4, 67), (4, 5, 107), (5, 6, 157)]
    );
}

#[test]
fn delete_writes_replay_without_collision() {
    let mut ledger = ledger_of(&[(1, 1, 10), (2, 2, -3), (3, 3, 5), (4, 4, 2)]);
    let mut store = RowStore::holding(&ledger);
    let changes = ledger.delete(2).unwrap();
    replay_step_by_step(&mut store, &changes);
    assert_eq!(store.rows(), ledger.entries());
}

#[test]
fn update_writes_replay_without_collision() {
    let mut ledger = ledger_of(&[(1, 1, 10), (2, 2, -3), (3, 3, 5), (4, 4, 2), (5, 8, 1)]);
    for (id, number) in [(4u128, 1i64), (1, 4), (5, 2), (2, 20)] {
        let mut store = RowStore::holding(&ledger);
        let patch = EntryPatch {
            sequence_number: Some(number),
            date: None,
            amount: None,
            ref_no: None,
            description: None,
        };
        let changes = ledger.update(id, patch).unwrap();
        replay_step_by_step(&mut store, &changes);
        assert_eq!(store.rows(), ledger.entries());
        assert!(ledger.is_consistent());
    }
}

#[test]
fn batch_writes_replay_without_collision() {
    let mut ledger = ledger_of(&[(1, 1, 10)]);
    let mut store = RowStore::holding(&ledger);
    let changes = ledger.bulk_insert(vec![entry(2, 0, 1), entry(3, 0, 2)]).unwrap();
    store.write_all(&changes).unwrap();
    assert_eq!(store.rows(), ledger.entries());
}

#[test]
fn ascending_shift_would_collide() {
    // The same updates in the wrong order hit a number that is still held.
    let mut ledger = ledger_of(&[(1, 1, 10), (2, 2, 20), (3, 3, 30)]);
    let mut store = RowStore::holding(&ledger);
    let mut changes = ledger.insert(entry(9, 1, 7)).unwrap();
    let inserted = changes.pop().unwrap();
    changes.reverse();
    changes.push(inserted);
    assert_eq!(store.write_all(&changes), Err(LedgerError::ConstraintViolation));
    assert_eq!(keys(store.rows()), vec![(1, 1, 10), (2, 2, 30), (3, 3, 60)]);
}

#[test]
fn failure_partway_leaves_the_store_as_it_was() {
    let mut ledger = ledger_of(&[(1, 1, 10), (2, 2, 20), (3, 3, 30)]);
    let before = keys(ledger.entries());
    let mut store = RowStore::holding(&ledger);
    let mut changes = ledger.insert(entry(9, 1, 7)).unwrap();
    changes.insert(2, RowChange::Delete { id: 77 });
    assert_eq!(store.write_all(&changes), Err(LedgerError::NotFound));
    assert_eq!(keys(store.rows()), before);

    changes[2] = RowChange::Insert(entry(3, 50, 0));
    assert_eq!(store.write_all(&changes), Err(LedgerError::ConstraintViolation));
    assert_eq!(keys(store.rows()), before);

    changes[2] = RowChange::Update { id: 88, sequence_number: 9, balance: 0 };
    assert_eq!(store.write_all(&changes), Err(LedgerError::NotFound));
    assert_eq!(keys(store.rows()), before);
}

#[test]
fn single_writes() {
    let mut store = RowStore::new();
    store.write(&RowChange::Insert(entry(1, 5, 0))).unwrap();
    store.write(&RowChange::Insert(entry(2, 2, 0))).unwrap();
    assert_eq!(keys(store.rows()), vec![(2, 2, 0), (1, 5, 0)]);
    assert_eq!(
        store.write(&RowChange::Insert(entry(3, 5, 0))),
        Err(LedgerError::ConstraintViolation)
    );
    assert_eq!(
        store.write(&RowChange::Update { id: 2, sequence_number: 5, balance: 1 }),
        Err(LedgerError::ConstraintViolation)
    );
    store.write(&RowChange::Update { id: 2, sequence_number: 9, balance: 4 }).unwrap();
    assert_eq!(keys(store.rows()), vec![(1, 5, 0), (2, 9, 4)]);
    store.write(&RowChange::Update { id: 2, sequence_number: 9, balance: 6 }).unwrap();
    assert_eq!(keys(store.rows()), vec![(1, 5, 0), (2, 9, 6)]);
    assert_eq!(store.write(&RowChange::Delete { id: 7 }), Err(LedgerError::NotFound));
    store.write(&RowChange::Delete { id: 1 }).unwrap();
    assert_eq!(keys(store.rows()), vec![(2, 9, 6)]);
}

#[test]
fn delete_frees_the_number_before_the_dependents_move() {
    // Moving the dependents first would put one onto the number of the row
    // that is to go.
    let mut ledger = ledger_of(&[(1, 1, 10), (2, 2, -3), (3, 3, 5)]);
    let mut store = RowStore::holding(&ledger);
    let mut changes = ledger.delete(2).unwrap();
    assert_eq!(changes[0], RowChange::Delete { id: 2 });
    store.write_all(&changes).unwrap();
    assert_eq!(store.rows(), ledger.entries());

    let mut late = RowStore::holding(&ledger_of(&[(1, 1, 10), (2, 2, -3), (3, 3, 5)]));
    let first = changes.remove(0);
    changes.push(first);
    assert_eq!(late.write_all(&changes), Err(LedgerError::ConstraintViolation));
    assert_eq!(keys(late.rows()), vec![(1, 1, 10), (2, 2, 7), (3, 3, 12)]);
}
