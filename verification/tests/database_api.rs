use networth_db::accounts::{
    create_account, delete_account, get_account, get_account_with_balance, get_accounts,
    get_accounts_with_balance, get_max_sequence, update_account, DeleteResult,
};
use networth_db::database::{transition, Database, ImportEvent, ImportState};
use networth_db::entry::{build_staged_transaction, build_transaction, Entry};
use networth_db::error::LedgerError;
use networth_db::helpers::{
    AccountColumn, AccountFilter, AccountSort, AccountsQueryOptions, EntryColumn, EntryFilter,
    EntryQueryOptions, EntrySort, ImportFilter, ImportsQueryOptions, Order, StringFilterType,
};
use networth_db::imports::{
    approve_import, create_import, delete_import, get_import, get_imports, set_stage_statement,
    update_import,
};
use networth_db::ledger::EntryPatch;
use networth_db::staged_transactions::{
    create_staged_transaction, delete_staged_transaction, get_staged_transaction,
    get_staged_transactions, update_staged_transaction,
};
use networth_db::statement::{AccountType, Statement, Transaction};
use networth_db::transactions::{
    create_transaction, delete_transaction, get_transaction, get_transactions,
    update_transaction,
};

fn line(description: &str, withdrawal: i64, deposit: i64, balance: i64) -> Transaction {
    Transaction {
        date: 1_609_459_200,
        description: description.to_string(),
        ref_no: format!("ref-{}", description),
        withdrawal,
        deposit,
        balance,
    }
}

fn statement(lines: Vec<Transaction>) -> Statement {
    Statement {
        account_number: "123456789".to_string(),
        account_type: AccountType::SavingsAccount,
        date: 1_612_137_600,
        transactions: lines,
    }
}

fn posted_of(db: &Database, account: u128) -> Vec<Entry> {
    get_transactions(
        db,
        EntryQueryOptions {
            filter: Some(EntryFilter { scope_id: Some(account), ..EntryFilter::any() }),
            sort: Some(EntrySort { column: EntryColumn::SequenceNumber, direction: Order::Asc }),
            limit: None,
            offset: None,
        },
    )
}

fn staged_of(db: &Database, import: u128) -> Vec<Entry> {
    get_staged_transactions(
        db,
        EntryQueryOptions {
            filter: Some(EntryFilter { scope_id: Some(import), ..EntryFilter::any() }),
            sort: Some(EntrySort { column: EntryColumn::SequenceNumber, direction: Order::Asc }),
            limit: None,
            offset: None,
        },
    )
}

fn no_patch() -> EntryPatch {
    EntryPatch { sequence_number: None, date: None, amount: None, ref_no: None, description: None }
}

#[test]
fn bulk_load_keeps_the_order_of_the_statement() {
    let mut db = Database::new();
    let account = create_account(&mut db, "111", &AccountType::CheckingAccount).unwrap();
    let lines = vec![line("a", 0, 1000, 5), line("b", 300, 0, 6), line("c", 0, 50, 7)];
    let import = create_import(&mut db, &statement(lines), &account.id).unwrap();

    let staged = staged_of(&db, import);
    let numbers: Vec<i64> = staged.iter().map(|e| e.sequence_number).collect();
    let amounts: Vec<i64> = staged.iter().map(|e| e.amount).collect();
    let balances: Vec<i64> = staged.iter().map(|e| e.balance).collect();
    let texts: Vec<&str> = staged.iter().map(|e| e.description.as_str()).collect();
    assert_eq!(numbers, vec![1, 2, 3]);
    assert_eq!(amounts, vec![1000, -300, 50]);
    assert_eq!(balances, vec![1000, 700, 750]);
    assert_eq!(texts, vec!["a", "b", "c"]);
    assert_eq!(staged[1].ref_no, "ref-b");
    assert_eq!(staged[1].date, 1_609_459_200);

    let found = get_import(
        &db,
        ImportsQueryOptions {
            filter: Some(ImportFilter { id: Some(import), ..ImportFilter::any() }),
            ..ImportsQueryOptions::default()
        },
    )
    .unwrap();
    assert_eq!(found.account_id, Some(account.id));
    assert_eq!(found.source_file_date, 1_612_137_600);
}

#[test]
fn promotion_renumbers_and_retires_the_import() {
    let mut db = Database::new();
    let account = create_account(&mut db, "111", &AccountType::CheckingAccount).unwrap();
    for number in 1..=5 {
        let entry =
            build_transaction(10, account.id, 0, number, String::new(), String::new());
        create_transaction(&mut db, entry).unwrap();
    }
    assert_eq!(get_max_sequence(&db, account.id), Ok(5));
    let import =
        create_import(&mut db, &statement(vec![line("a", 0, 7, 0), line("b", 2, 0, 0)]), &account.id)
            .unwrap();
    assert_eq!(staged_of(&db, import).len(), 2);

    assert_eq!(approve_import(&mut db, import, account.id), Ok(()));

    let posted = posted_of(&db, account.id);
    let numbers: Vec<i64> = posted.iter().map(|e| e.sequence_number).collect();
    assert_eq!(numbers, vec![1, 2, 3, 4, 5, 6, 7]);
    assert_eq!(posted[5].amount, 7);
    assert_eq!(posted[5].balance, 7);
    assert_eq!(posted[6].amount, -2);
    assert_eq!(posted[6].balance, 5);
    assert_eq!(posted[6].description, "b");
    assert_eq!(posted[6].scope_id, account.id);
    assert_eq!(get_max_sequence(&db, account.id), Ok(7));
    assert!(get_imports(&db, ImportsQueryOptions::default()).is_empty());
    assert!(get_staged_transactions(&db, EntryQueryOptions::default()).is_empty());
    assert_eq!(approve_import(&mut db, import, account.id), Err(LedgerError::NotFound));
}

#[test]
fn promotion_of_missing_import_or_account() {
    let mut db = Database::new();
    let account = create_account(&mut db, "111", &AccountType::CheckingAccount).unwrap();
    let import = set_stage_statement(&mut db, &statement(vec![line("a", 0, 7, 0)])).unwrap();
    assert_eq!(approve_import(&mut db, import + 1, account.id), Err(LedgerError::NotFound));
    assert_eq!(approve_import(&mut db, import, account.id + 1), Err(LedgerError::NotFound));
    assert_eq!(staged_of(&db, import).len(), 1);
    assert_eq!(get_imports(&db, ImportsQueryOptions::default()).len(), 1);
    assert!(posted_of(&db, account.id).is_empty());
}

#[test]
fn import_workflow_states() {
    assert_eq!(transition(ImportState::Staged, ImportEvent::Approve), Ok(ImportState::Promoted));
    assert_eq!(transition(ImportState::Staged, ImportEvent::Discard), Ok(ImportState::Discarded));
    assert_eq!(
        transition(ImportState::Promoted, ImportEvent::Discard),
        Err(LedgerError::NotFound)
    );
    assert_eq!(
        transition(ImportState::Discarded, ImportEvent::Approve),
        Err(LedgerError::NotFound)
    );
}

#[test]
fn loading_refusals() {
    let mut db = Database::new();
    let account = create_account(&mut db, "111", &AccountType::CheckingAccount).unwrap();
    let good = statement(vec![line("a", 0, 7, 0)]);
    assert_eq!(create_import(&mut db, &good, &(account.id + 1)), Err(LedgerError::NotFound));
    assert_eq!(
        create_import(&mut db, &statement(vec![]), &account.id),
        Err(LedgerError::ValidationFailure)
    );
    assert_eq!(
        create_import(&mut db, &statement(vec![line("a", -1, 0, 0)]), &account.id),
        Err(LedgerError::ValidationFailure)
    );
    assert_eq!(
        set_stage_statement(&mut db, &statement(vec![line("a", 0, -5, 0)])),
        Err(LedgerError::ValidationFailure)
    );
    assert_eq!(
        set_stage_statement(
            &mut db,
            &statement(vec![line("a", 0, i64::MAX, 0), line("b", 0, 1, 0)])
        ),
        Err(LedgerError::ValidationFailure)
    );
    assert!(get_imports(&db, ImportsQueryOptions::default()).is_empty());
}

#[test]
fn discarding_an_import_cascades() {
    let mut db = Database::new();
    let first = set_stage_statement(&mut db, &statement(vec![line("a", 0, 7, 0)])).unwrap();
    let second = set_stage_statement(&mut db, &statement(vec![line("b", 0, 8, 0)])).unwrap();
    assert_eq!(delete_import(&mut db, first), Ok(DeleteResult { rows_affected: 1 }));
    assert_eq!(delete_import(&mut db, first), Err(LedgerError::NotFound));
    let left = get_staged_transactions(&db, EntryQueryOptions::default());
    assert_eq!(left.len(), 1);
    assert_eq!(left[0].scope_id, second);
}

#[test]
fn rebinding_an_import() {
    let mut db = Database::new();
    let account = create_account(&mut db, "111", &AccountType::CheckingAccount).unwrap();
    let import = set_stage_statement(&mut db, &statement(vec![line("a", 0, 7, 0)])).unwrap();
    assert_eq!(update_import(&mut db, import + 1, None), Err(LedgerError::NotFound));
    assert_eq!(
        update_import(&mut db, import, Some(account.id + 1)),
        Err(LedgerError::NotFound)
    );
    assert_eq!(update_import(&mut db, import, None).unwrap().account_id, None);
    let bound = update_import(&mut db, import, Some(account.id)).unwrap();
    assert_eq!(bound.account_id, Some(account.id));
    assert_eq!(bound.id, import);
    let by_account = get_imports(
        &db,
        ImportsQueryOptions {
            filter: Some(ImportFilter { account_id: Some(account.id), ..ImportFilter::any() }),
            ..ImportsQueryOptions::default()
        },
    );
    assert_eq!(by_account, vec![bound]);
}

#[test]
fn account_lifecycle() {
    let mut db = Database::new();
    let first = create_account(&mut db, "111", &AccountType::CheckingAccount).unwrap();
    let second = create_account(&mut db, "222", &AccountType::CreditCard).unwrap();
    assert_eq!(first.account_number, "111");
    assert_eq!(first.account_type, AccountType::CheckingAccount);
    assert_eq!(first.max_sequence_number, 0);
    assert_ne!(first.id, second.id);

    let changed =
        update_account(&mut db, first.id, Some(AccountType::SavingsAccount), None).unwrap();
    assert_eq!(changed.account_type, AccountType::SavingsAccount);
    assert_eq!(changed.account_number, "111");
    let changed = update_account(&mut db, first.id, None, Some("333".to_string())).unwrap();
    assert_eq!(changed.account_type, AccountType::SavingsAccount);
    assert_eq!(changed.account_number, "333");
    assert_eq!(
        update_account(&mut db, first.id + second.id + 1, None, None),
        Err(LedgerError::NotFound)
    );

    let import =
        create_import(&mut db, &statement(vec![line("a", 0, 7, 0)]), &first.id).unwrap();
    let other =
        create_import(&mut db, &statement(vec![line("b", 0, 8, 0)]), &second.id).unwrap();
    let entry = build_transaction(10, first.id, 0, 1, String::new(), String::new());
    create_transaction(&mut db, entry).unwrap();

    assert_eq!(delete_account(&mut db, first.id), Ok(DeleteResult { rows_affected: 1 }));
    assert_eq!(delete_account(&mut db, first.id), Err(LedgerError::NotFound));
    assert_eq!(get_max_sequence(&db, first.id), Err(LedgerError::NotFound));
    assert!(get_transactions(&db, EntryQueryOptions::default()).is_empty());
    assert!(staged_of(&db, import).is_empty());
    assert_eq!(staged_of(&db, other).len(), 1);
    let accounts = get_accounts(&db, AccountsQueryOptions::default());
    assert_eq!(accounts.len(), 1);
    assert_eq!(accounts[0].id, second.id);
}

#[test]
fn account_queries() {
    let mut db = Database::new();
    let a = create_account(&mut db, "HD-100", &AccountType::CheckingAccount).unwrap();
    let b = create_account(&mut db, "IC-200", &AccountType::SavingsAccount).unwrap();
    let c = create_account(&mut db, "HD-300", &AccountType::SavingsAccount).unwrap();
    for (account, amount) in [(a.id, 5), (a.id, 7), (c.id, -2)] {
        let number = get_max_sequence(&db, account).unwrap() + 1;
        let entry = build_transaction(amount, account, 0, number, String::new(), String::new());
        create_transaction(&mut db, entry).unwrap();
    }

    let by_number = |kind: StringFilterType, text: &str| AccountsQueryOptions {
        filter: Some(AccountFilter {
            account_number: Some((kind, text.to_string())),
            ..AccountFilter::any()
        }),
        sort: Some(AccountSort { column: AccountColumn::AccountNumber, direction: Order::Desc }),
        limit: None,
        offset: None,
    };
    let ids = |rows: Vec<networth_db::database::Account>| -> Vec<u128> {
        rows.iter().map(|r| r.id).collect()
    };
    assert_eq!(ids(get_accounts(&db, by_number(StringFilterType::StartsWith, "HD"))), vec![c.id, a.id]);
    assert_eq!(ids(get_accounts(&db, by_number(StringFilterType::EndsWith, "00"))), vec![b.id, c.id, a.id]);
    assert_eq!(ids(get_accounts(&db, by_number(StringFilterType::Contains, "-2"))), vec![b.id]);
    assert_eq!(ids(get_accounts(&db, by_number(StringFilterType::NotContains, "-2"))), vec![c.id, a.id]);
    assert_eq!(ids(get_accounts(&db, by_number(StringFilterType::Equal, "HD-300"))), vec![c.id]);

    let savings = AccountsQueryOptions {
        filter: Some(AccountFilter {
            account_type: Some(AccountType::SavingsAccount),
            ..AccountFilter::any()
        }),
        ..AccountsQueryOptions::default()
    };
    assert_eq!(get_account(&db, savings).unwrap().id, b.id);

    let by_id = AccountsQueryOptions {
        filter: Some(AccountFilter { id: Some(c.id), ..AccountFilter::any() }),
        ..AccountsQueryOptions::default()
    };
    let (found, balance) = get_account_with_balance(&db, by_id).unwrap();
    assert_eq!(found.id, c.id);
    assert_eq!(found.max_sequence_number, 1);
    assert_eq!(balance, -2);

    let all = get_accounts_with_balance(&db, AccountsQueryOptions::default());
    let pairs: Vec<(u128, i64, i64)> =
        all.iter().map(|(r, bal)| (r.id, r.max_sequence_number, *bal)).collect();
    assert_eq!(pairs, vec![(a.id, 2, 12), (b.id, 0, 0), (c.id, 1, -2)]);

    let missing = AccountsQueryOptions {
        filter: Some(AccountFilter { id: Some(a.id + b.id + c.id + 1), ..AccountFilter::any() }),
        ..AccountsQueryOptions::default()
    };
    assert!(get_account_with_balance(&db, missing).is_none());
    assert_eq!(AccountSort::default().column, AccountColumn::UpdatedAt);
    assert_eq!(AccountSort::default().direction, Order::Asc);
}

#[test]
fn posted_entries_keep_the_high_water_mark() {
    let mut db = Database::new();
    let account = create_account(&mut db, "111", &AccountType::CheckingAccount).unwrap();
    let mut ids = Vec::new();
    for (number, amount) in [(1, 10), (2, -3), (3, 5), (4, 2)] {
        let entry = build_transaction(amount, account.id, 0, number, String::new(), String::new());
        let stored = create_transaction(&mut db, entry).unwrap();
        ids.push(stored.id);
    }
    let stored = posted_of(&db, account.id);
    let balances: Vec<i64> = stored.iter().map(|e| e.balance).collect();
    assert_eq!(balances, vec![10, 7, 12, 14]);
    assert_eq!(get_max_sequence(&db, account.id), Ok(4));

    assert_eq!(delete_transaction(&mut db, ids[1]), Ok(DeleteResult { rows_affected: 1 }));
    assert_eq!(delete_transaction(&mut db, ids[1]), Err(LedgerError::NotFound));
    let stored = posted_of(&db, account.id);
    let rows: Vec<(i64, i64, i64)> =
        stored.iter().map(|e| (e.sequence_number, e.amount, e.balance)).collect();
    assert_eq!(rows, vec![(1, 10, 10), (2, 5, 15), (3, 2, 17)]);
    assert_eq!(get_max_sequence(&db, account.id), Ok(3));

    let moved = update_transaction(
        &mut db,
        ids[3],
        EntryPatch { sequence_number: Some(9), amount: Some(-17), ..no_patch() },
    )
    .unwrap();
    assert_eq!(moved.sequence_number, 9);
    assert_eq!(moved.balance, -2);
    assert_eq!(get_max_sequence(&db, account.id), Ok(9));
    assert_eq!(update_transaction(&mut db, 0, no_patch()), Err(LedgerError::NotFound));

    let orphan = build_transaction(1, account.id + 1, 0, 1, String::new(), String::new());
    assert_eq!(create_transaction(&mut db, orphan), Err(LedgerError::NotFound));

    let by_id = EntryQueryOptions {
        filter: Some(EntryFilter { id: Some(ids[0]), ..EntryFilter::any() }),
        ..EntryQueryOptions::default()
    };
    assert_eq!(get_transaction(&db, by_id).unwrap().balance, 10);
    let first = get_transaction(&db, EntryQueryOptions {
        sort: Some(EntrySort::default()),
        ..EntryQueryOptions::default()
    });
    assert_eq!(first.unwrap().sequence_number, 9);
}

#[test]
fn staged_entries_can_be_edited() {
    let mut db = Database::new();
    let import = set_stage_statement(
        &mut db,
        &statement(vec![line("a", 0, 10, 0), line("b", 3, 0, 0), line("c", 0, 5, 0)]),
    )
    .unwrap();
    let extra = build_staged_transaction(100, import, 0, 0, 2, "x".to_string(), "new".to_string());
    let extra_id = extra.id;
    let stored = create_staged_transaction(&mut db, extra).unwrap();
    assert_eq!(stored.balance, 110);
    let rows: Vec<(i64, i64)> =
        staged_of(&db, import).iter().map(|e| (e.sequence_number, e.balance)).collect();
    assert_eq!(rows, vec![(1, 10), (2, 110), (3, 107), (4, 112)]);

    let edited = update_staged_transaction(
        &mut db,
        extra_id,
        EntryPatch { sequence_number: Some(4), ..no_patch() },
    )
    .unwrap();
    assert_eq!((edited.sequence_number, edited.balance), (4, 112));
    let rows: Vec<(i64, i64)> =
        staged_of(&db, import).iter().map(|e| (e.sequence_number, e.balance)).collect();
    assert_eq!(rows, vec![(1, 10), (2, 7), (3, 12), (4, 112)]);

    assert_eq!(delete_staged_transaction(&mut db, extra_id), Ok(DeleteResult { rows_affected: 1 }));
    assert_eq!(delete_staged_transaction(&mut db, extra_id), Err(LedgerError::NotFound));
    assert_eq!(
        update_staged_transaction(&mut db, extra_id, no_patch()),
        Err(LedgerError::NotFound)
    );
    let stray = build_staged_transaction(1, import + 1, 0, 0, 1, String::new(), String::new());
    assert_eq!(create_staged_transaction(&mut db, stray), Err(LedgerError::NotFound));
    let by_id = EntryQueryOptions {
        filter: Some(EntryFilter { id: Some(extra_id), ..EntryFilter::any() }),
        ..EntryQueryOptions::default()
    };
    assert!(get_staged_transaction(&db, by_id).is_none());
    assert_eq!(staged_of(&db, import).len(), 3);
}
