//! Operations on posted entries.

use vstd::prelude::*;
use crate::accounts::DeleteResult;
use crate::changes::RowChange;
use crate::database::{with_mark, Database};
use crate::entry::Entry;
use crate::error::LedgerError;
use crate::helpers::TransactionsQueryOptions;
use crate::laws::lemma_updated_holds;
use crate::ledger::{update_refusal, updated, EntryPatch};
use crate::sequence::{
    delete_refusal, deleted, high_water_mark, index_of, insert_refusal, inserted, placed,
};
use crate::table::{
    entries_selected, entry_selected, holder, lemma_holder_parts, lemma_holder_stays, only_changed,
};

verus! {

/// Posts an entry to the ledger of its account, at its requested
/// sequence number, and hands back the entry as it is stored, with its
/// balance. The rules are those of `Ledger::insert`; the account's
/// high-water mark follows. Refused with `NotFound` where there is no such
/// account. A refused call changes nothing.
pub fn create_transaction(db: &mut Database, transaction: Entry) -> (result: Result<
    Entry,
    LedgerError,
>)
    requires
        old(db).wf(),
    ensures
        final(db).wf(),
        final(db).same_imports(old(db)),
        !old(db).has_account(transaction.scope_id) ==> result == Err::<Entry, LedgerError>(
            LedgerError::NotFound,
        ) && final(db).same_accounts(old(db)),
        old(db).has_account(transaction.scope_id) ==> {
            let at = old(db).account_index(transaction.scope_id);
            let rows = old(db).posted()[at]@;
            match insert_refusal(rows, transaction.scope_id, transaction) {
                Some(error) => result == Err::<Entry, LedgerError>(error) && final(db).same_accounts(old(db)),
                None => {
                    &&& result == Ok::<Entry, LedgerError>(placed(rows, transaction))
                    &&& only_changed(old(db).posted(), final(db).posted(), at)
                    &&& final(db).posted()[at]@ == inserted(rows, transaction)
                    &&& final(db).accounts() == old(db).accounts().update(
                        at,
                        with_mark(
                            old(db).accounts()[at],
                            high_water_mark(inserted(rows, transaction)) as i64,
                        ),
                    )
                },
            }
        },
{
    match db.post_entry(transaction) {
        Ok(changes) => {
            let mut changes = changes;
            match changes.pop() {
                Some(RowChange::Insert(stored)) => Ok(stored),
                _ => Err(LedgerError::NotFound),
            }
        },
        Err(error) => Err(error),
    }
}

/// Edits the posted entry with the identifier and hands back the entry as
/// it is stored afterwards. The rules are those of `Ledger::update`; the
/// account's high-water mark follows. Refused with `NotFound` where no
/// account holds such an entry. A refused call changes nothing.
pub fn update_transaction(db: &mut Database, id: u128, patch: EntryPatch) -> (result: Result<
    Entry,
    LedgerError,
>)
    requires
        old(db).wf(),
    ensures
        final(db).wf(),
        final(db).same_imports(old(db)),
        holder(old(db).posted(), id) == old(db).posted().len() ==> result == Err::<
            Entry,
            LedgerError,
        >(LedgerError::NotFound) && final(db).same_accounts(old(db)),
        holder(old(db).posted(), id) < old(db).posted().len() ==> {
            let at = holder(old(db).posted(), id);
            let rows = old(db).posted()[at]@;
            match update_refusal(rows, old(db).posted()[at].scope(), id, patch) {
                Some(error) => result == Err::<Entry, LedgerError>(error) && final(db).same_accounts(old(db)),
                None => {
                    let after = updated(rows, index_of(rows, id), patch);
                    &&& result == Ok::<Entry, LedgerError>(after[index_of(after, id)])
                    &&& only_changed(old(db).posted(), final(db).posted(), at)
                    &&& final(db).posted()[at]@ == after
                    &&& final(db).accounts() == old(db).accounts().update(
                        at,
                        with_mark(old(db).accounts()[at], high_water_mark(after) as i64),
                    )
                },
            }
        },
{
    let ghost before = *db;
    match db.edit_posted_entry(id, patch) {
        Ok(_) => {
            proof {
                let at = holder(before.posted(), id);
                lemma_holder_parts(before.posted(), id, 0);
                lemma_updated_holds(
                    before.posted()[at]@,
                    before.posted()[at].scope(),
                    id,
                    patch,
                );
                lemma_holder_stays(before.posted(), db.posted(), id);
            }
            match db.posted_table().entry(id) {
                Some(entry) => Ok(entry.duplicate()),
                None => Err(LedgerError::NotFound),
            }
        },
        Err(error) => Err(error),
    }
}

/// Deletes the posted entry with the identifier. The rules are those of
/// `Ledger::delete`; the account's high-water mark follows. Refused with
/// `NotFound` where no account holds such an entry. A refused call
/// changes nothing.
pub fn delete_transaction(db: &mut Database, id: u128) -> (result: Result<
    DeleteResult,
    LedgerError,
>)
    requires
        old(db).wf(),
    ensures
        final(db).wf(),
        final(db).same_imports(old(db)),
        holder(old(db).posted(), id) == old(db).posted().len() ==> result == Err::<
            DeleteResult,
            LedgerError,
        >(LedgerError::NotFound) && final(db).same_accounts(old(db)),
        holder(old(db).posted(), id) < old(db).posted().len() ==> {
            let at = holder(old(db).posted(), id);
            let rows = old(db).posted()[at]@;
            match delete_refusal(rows, id) {
                Some(error) => result == Err::<DeleteResult, LedgerError>(error) && final(db).same_accounts(old(db)),
                None => {
                    let after = deleted(rows, index_of(rows, id));
                    &&& result == Ok::<DeleteResult, LedgerError>(
                        DeleteResult { rows_affected: 1 },
                    )
                    &&& only_changed(old(db).posted(), final(db).posted(), at)
                    &&& final(db).posted()[at]@ == after
                    &&& final(db).accounts() == old(db).accounts().update(
                        at,
                        with_mark(old(db).accounts()[at], high_water_mark(after) as i64),
                    )
                },
            }
        },
{
    match db.remove_posted_entry(id) {
        Ok(_) => Ok(DeleteResult { rows_affected: 1 }),
        Err(error) => Err(error),
    }
}

/// The posted entries that pass the filter of the query, sorted as it
/// asks, behind its offset and up to its limit.
pub fn get_transactions(db: &Database, options: TransactionsQueryOptions) -> (rows: Vec<Entry>)
    ensures
        rows@ == entries_selected(db.posted(), options),
{
    db.posted_table().select(options)
}

/// One posted entry: the one with the identifier where the filter names
/// one, else the first that the query yields.
pub fn get_transaction(db: &Database, options: TransactionsQueryOptions) -> (found: Option<Entry>)
    requires
        db.wf(),
    ensures
        found == entry_selected(db.posted(), options),
{
    db.posted_table().select_one(options)
}

} // verus!
