//! Operations on accounts.

use vstd::prelude::*;
use crate::balance::balance_before;
use crate::database::{account_patched, imports_without, staged_without, Account, Database};
use crate::entry::{fresh_id, Entry};
use crate::error::LedgerError;
use crate::helpers::{account_sort_pair, AccountsQueryOptions};
use crate::queries::{select, selected};
use crate::sequence::high_water_mark;
use crate::statement::AccountType;
use crate::utils::get_current_datetime;

verus! {

/// What a delete did.
#[derive(Clone, Copy, Debug, PartialEq, Eq, Structural)]
pub struct DeleteResult {
    pub rows_affected: u64,
}

/// The first of the rows, if there is one.
pub open spec fn first_of<T>(rows: Seq<T>) -> Option<T> {
    if rows.len() > 0 {
        Some(rows[0])
    } else {
        None
    }
}

/// The balance of an account: the balance of its highest-numbered posted
/// entry, or zero where it has no entries or does not exist.
pub open spec fn account_balance(db: Database, id: u128) -> int {
    if db.has_account(id) {
        let rows = db.posted()[db.account_index(id)]@;
        balance_before(rows, 0, rows.len() as int)
    } else {
        0
    }
}

/// The accounts that a query yields.
pub open spec fn accounts_selected(db: Database, options: AccountsQueryOptions) -> Seq<Account> {
    selected(
        db.accounts(),
        options.filter,
        account_sort_pair(options.sort),
        options.offset,
        options.limit,
    )
}

/// The account that a query for one account yields: the account with the
/// identifier where the filter names one, whatever else it asks for; else
/// the first account that the query yields.
pub open spec fn account_selected(db: Database, options: AccountsQueryOptions) -> Option<Account> {
    if options.filter is Some && options.filter.unwrap().id is Some {
        let id = options.filter.unwrap().id.unwrap();
        if db.has_account(id) {
            Some(db.accounts()[db.account_index(id)])
        } else {
            None
        }
    } else {
        first_of(
            selected(
                db.accounts(),
                options.filter,
                account_sort_pair(options.sort),
                options.offset,
                Some(1u64),
            ),
        )
    }
}

/// Creates an account with the number and the type given, under a fresh
/// identifier, without entries and with a high-water mark of zero, and
/// hands it back. The identifier is drawn at random: should an account
/// have it already, the call is refused with `ConstraintViolation` and
/// changes nothing.
pub fn create_account(db: &mut Database, account_number: &str, account_type: &AccountType) -> (result:
    Result<Account, LedgerError>)
    requires
        old(db).wf(),
    ensures
        final(db).wf(),
        final(db).same_imports(old(db)),
        match result {
            Ok(account) => {
                &&& account.account_number@ == account_number@
                &&& account.account_type == *account_type
                &&& account.max_sequence_number == 0
                &&& !old(db).has_account(account.id)
                &&& final(db).accounts() == old(db).accounts().push(account)
                &&& final(db).posted().len() == old(db).posted().len() + 1
                &&& final(db).posted().drop_last() == old(db).posted()
                &&& final(db).posted().last().scope() == account.id
                &&& final(db).posted().last()@ == Seq::<Entry>::empty()
            },
            Err(error) => error == LedgerError::ConstraintViolation && final(db).same_accounts(
                old(db),
            ),
        },
{
    let id: u128 = fresh_id();
    let now: i64 = get_current_datetime();
    db.add_account(id, account_number.to_string(), *account_type, now)
}

/// Changes the type, the number or both of the account with the
/// identifier, and hands the changed account back. Refused with
/// `NotFound`, and without any change, where there is no such account.
pub fn update_account(
    db: &mut Database,
    id: u128,
    account_type: Option<AccountType>,
    account_number: Option<String>,
) -> (result: Result<Account, LedgerError>)
    requires
        old(db).wf(),
    ensures
        final(db).wf(),
        final(db).same_imports(old(db)),
        final(db).posted() == old(db).posted(),
        !old(db).has_account(id) ==> result == Err::<Account, LedgerError>(LedgerError::NotFound)
            && final(db).same_accounts(old(db)),
        old(db).has_account(id) ==> result is Ok && result.unwrap() == account_patched(
            old(db).accounts()[old(db).account_index(id)],
            account_type,
            account_number,
            result.unwrap().updated_at,
        ) && final(db).accounts() == old(db).accounts().update(
            old(db).account_index(id),
            result.unwrap(),
        ),
{
    let now: i64 = get_current_datetime();
    db.change_account(id, account_type, account_number, now)
}

/// Deletes the account with the identifier, with its posted entries and
/// with the imports that are bound to it. Refused with `NotFound`, and
/// without any change, where there is no such account.
pub fn delete_account(db: &mut Database, id: u128) -> (result: Result<DeleteResult, LedgerError>)
    requires
        old(db).wf(),
    ensures
        final(db).wf(),
        !old(db).has_account(id) ==> result == Err::<DeleteResult, LedgerError>(
            LedgerError::NotFound,
        ) && final(db).same_as(old(db)),
        old(db).has_account(id) ==> result == Ok::<DeleteResult, LedgerError>(
            DeleteResult { rows_affected: 1 },
        ) && !final(db).has_account(id) && final(db).accounts() == old(db).accounts().remove(
            old(db).account_index(id),
        ) && final(db).posted() == old(db).posted().remove(old(db).account_index(id)) && final(db).imports() == imports_without(old(db).imports(), id) && final(db).staged()
            == staged_without(old(db).imports(), old(db).staged(), id),
{
    match db.remove_account(id) {
        Ok(_) => Ok(DeleteResult { rows_affected: 1 }),
        Err(error) => Err(error),
    }
}

/// The high-water mark of the account with the identifier: the highest
/// sequence number among its posted entries, or zero. Refused with
/// `NotFound` where there is no such account.
pub fn get_max_sequence(db: &Database, account_id: u128) -> (result: Result<i64, LedgerError>)
    requires
        db.wf(),
    ensures
        !db.has_account(account_id) ==> result == Err::<i64, LedgerError>(LedgerError::NotFound),
        db.has_account(account_id) ==> result == Ok::<i64, LedgerError>(
            high_water_mark(db.posted()[db.account_index(account_id)]@) as i64,
        ),
{
    match db.account(account_id) {
        Some(account) => Ok(account.max_sequence_number),
        None => Err(LedgerError::NotFound),
    }
}

/// The accounts that pass the filter of the query, sorted as it asks,
/// behind its offset and up to its limit.
pub fn get_accounts(db: &Database, options: AccountsQueryOptions) -> (rows: Vec<Account>)
    ensures
        rows@ == accounts_selected(*db, options),
{
    let sort = match options.sort {
        Some(sort) => Some((sort.column, sort.direction)),
        None => None,
    };
    select(db.account_rows(), &options.filter, sort, options.offset, options.limit)
}

/// One account: the one with the identifier where the filter names one,
/// else the first that the query yields.
pub fn get_account(db: &Database, options: AccountsQueryOptions) -> (found: Option<Account>)
    requires
        db.wf(),
    ensures
        found == account_selected(*db, options),
{
    if let Some(filter) = &options.filter {
        if let Some(id) = filter.id {
            return match db.account(id) {
                Some(account) => Some(account.duplicate()),
                None => None,
            };
        }
    }
    let sort = match options.sort {
        Some(sort) => Some((sort.column, sort.direction)),
        None => None,
    };
    let mut rows = select(db.account_rows(), &options.filter, sort, options.offset, Some(1u64));
    if rows.len() > 0 {
        Some(rows.remove(0))
    } else {
        None
    }
}

/// The balance of the account with the identifier: the balance of its
/// highest-numbered posted entry, or zero.
pub fn balance_of(db: &Database, id: u128) -> (balance: i64)
    requires
        db.wf(),
    ensures
        balance == account_balance(*db, id),
{
    match db.posted_table().ledger(id) {
        Some(ledger) => ledger.closing_balance(),
        None => 0,
    }
}

/// The accounts that a query yields, each with its balance.
pub fn get_accounts_with_balance(db: &Database, options: AccountsQueryOptions) -> (rows: Vec<
    (Account, i64),
>)
    requires
        db.wf(),
    ensures
        rows@.len() == accounts_selected(*db, options).len(),
        forall|k: int|
            0 <= k < rows@.len() ==> (#[trigger] rows@[k]).0 == accounts_selected(*db, options)[k]
                && rows@[k].1 == account_balance(*db, rows@[k].0.id),
{
    let mut accounts = get_accounts(db, options);
    let ghost all = accounts@;
    let n: usize = accounts.len();
    let mut rows: Vec<(Account, i64)> = Vec::new();
    let mut k: usize = 0;
    while k < n
        invariant
            k <= n,
            n == all.len(),
            db.wf(),
            accounts@ == all,
            rows@.len() == k,
            forall|j: int|
                0 <= j < k ==> (#[trigger] rows@[j]).0 == all[j] && rows@[j].1 == account_balance(
                    *db,
                    all[j].id,
                ),
        decreases n - k,
    {
        let account = accounts[k].duplicate();
        let balance: i64 = balance_of(db, account.id);
        rows.push((account, balance));
        k = k + 1;
    }
    rows
}

/// One account with its balance: the account that `get_account` yields
/// for the query.
pub fn get_account_with_balance(db: &Database, options: AccountsQueryOptions) -> (found: Option<
    (Account, i64),
>)
    requires
        db.wf(),
    ensures
        match found {
            Some((account, balance)) => account_selected(*db, options) == Some(account)
                && balance == account_balance(*db, account.id),
            None => account_selected(*db, options) is None,
        },
{
    match get_account(db, options) {
        Some(account) => {
            let balance: i64 = balance_of(db, account.id);
            Some((account, balance))
        },
        None => None,
    }
}

} // verus!
