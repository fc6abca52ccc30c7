//! Operations on staged entries.

use vstd::prelude::*;
use crate::accounts::DeleteResult;
use crate::changes::RowChange;
use crate::database::Database;
use crate::entry::Entry;
use crate::error::LedgerError;
use crate::helpers::StagedTransactionsQueryOptions;
use crate::laws::lemma_updated_holds;
use crate::ledger::{update_refusal, updated, EntryPatch};
use crate::sequence::{delete_refusal, deleted, index_of, insert_refusal, inserted, placed};
use crate::table::{
    entries_selected, entry_selected, holder, lemma_holder_parts, lemma_holder_stays, only_changed,
};

verus! {

/// Stages an entry in the ledger of its import, at its requested
/// sequence number, and hands back the entry as it is stored, with its
/// balance. The rules are those of `Ledger::insert`. Refused with
/// `NotFound` where there is no such import. A refused call changes
/// nothing.
pub fn create_staged_transaction(db: &mut Database, transaction: Entry) -> (result: Result<
    Entry,
    LedgerError,
>)
    requires
        old(db).wf(),
    ensures
        final(db).wf(),
        final(db).same_accounts(old(db)),
        final(db).imports() == old(db).imports(),
        !old(db).has_import(transaction.scope_id) ==> result == Err::<Entry, LedgerError>(
            LedgerError::NotFound,
        ) && final(db).same_imports(old(db)),
        old(db).has_import(transaction.scope_id) ==> {
            let at = old(db).import_index(transaction.scope_id);
            let rows = old(db).staged()[at]@;
            match insert_refusal(rows, transaction.scope_id, transaction) {
                Some(error) => result == Err::<Entry, LedgerError>(error) && final(db).same_imports(old(db)),
                None => {
                    &&& result == Ok::<Entry, LedgerError>(placed(rows, transaction))
                    &&& only_changed(old(db).staged(), final(db).staged(), at)
                    &&& final(db).staged()[at]@ == inserted(rows, transaction)
                },
            }
        },
{
    match db.stage_entry(transaction) {
        Ok(changes) => {
            let mut changes = changes;
            match changes.pop() {
                Some(RowChange::Insert(stored)) => Ok(stored),
                _ => Err(LedgerError::NotFound),
            }
        },
        Err(error) => Err(error),
    }
}

/// Edits the staged entry with the identifier and hands back the entry as
/// it is stored afterwards. The rules are those of `Ledger::update`.
/// Refused with `NotFound` where no import holds such an entry. A refused
/// call changes nothing.
pub fn update_staged_transaction(db: &mut Database, id: u128, patch: EntryPatch) -> (result: Result<
    Entry,
    LedgerError,
>)
    requires
        old(db).wf(),
    ensures
        final(db).wf(),
        final(db).same_accounts(old(db)),
        final(db).imports() == old(db).imports(),
        holder(old(db).staged(), id) == old(db).staged().len() ==> result == Err::<
            Entry,
            LedgerError,
        >(LedgerError::NotFound) && final(db).same_imports(old(db)),
        holder(old(db).staged(), id) < old(db).staged().len() ==> {
            let at = holder(old(db).staged(), id);
            let rows = old(db).staged()[at]@;
            match update_refusal(rows, old(db).staged()[at].scope(), id, patch) {
                Some(error) => result == Err::<Entry, LedgerError>(error) && final(db).same_imports(old(db)),
                None => {
                    let after = updated(rows, index_of(rows, id), patch);
                    &&& result == Ok::<Entry, LedgerError>(after[index_of(after, id)])
                    &&& only_changed(old(db).staged(), final(db).staged(), at)
                    &&& final(db).staged()[at]@ == after
                },
            }
        },
{
    let ghost before = *db;
    match db.edit_staged_entry(id, patch) {
        Ok(_) => {
            proof {
                let at = holder(before.staged(), id);
                lemma_holder_parts(before.staged(), id, 0);
                lemma_updated_holds(
                    before.staged()[at]@,
                    before.staged()[at].scope(),
                    id,
                    patch,
                );
                lemma_holder_stays(before.staged(), db.staged(), id);
            }
            match db.staged_table().entry(id) {
                Some(entry) => Ok(entry.duplicate()),
                None => Err(LedgerError::NotFound),
            }
        },
        Err(error) => Err(error),
    }
}

/// Deletes the staged entry with the identifier. The rules are those of
/// `Ledger::delete`. Refused with `NotFound` where no import holds such an
/// entry. A refused call changes nothing.
pub fn delete_staged_transaction(db: &mut Database, id: u128) -> (result: Result<
    DeleteResult,
    LedgerError,
>)
    requires
        old(db).wf(),
    ensures
        final(db).wf(),
        final(db).same_accounts(old(db)),
        final(db).imports() == old(db).imports(),
        holder(old(db).staged(), id) == old(db).staged().len() ==> result == Err::<
            DeleteResult,
            LedgerError,
        >(LedgerError::NotFound) && final(db).same_imports(old(db)),
        holder(old(db).staged(), id) < old(db).staged().len() ==> {
            let at = holder(old(db).staged(), id);
            let rows = old(db).staged()[at]@;
            match delete_refusal(rows, id) {
                Some(error) => result == Err::<DeleteResult, LedgerError>(error) && final(db).same_imports(old(db)),
                None => {
                    let after = deleted(rows, index_of(rows, id));
                    &&& result == Ok::<DeleteResult, LedgerError>(
                        DeleteResult { rows_affected: 1 },
                    )
                    &&& only_changed(old(db).staged(), final(db).staged(), at)
                    &&& final(db).staged()[at]@ == after
                },
            }
        },
{
    match db.remove_staged_entry(id) {
        Ok(_) => Ok(DeleteResult { rows_affected: 1 }),
        Err(error) => Err(error),
    }
}

/// The staged entries that pass the filter of the query, sorted as it
/// asks, behind its offset and up to its limit.
pub fn get_staged_transactions(db: &Database, options: StagedTransactionsQueryOptions) -> (rows: Vec<Entry>)
    ensures
        rows@ == entries_selected(db.staged(), options),
{
    db.staged_table().select(options)
}

/// One staged entry: the one with the identifier where the filter names
/// one, else the first that the query yields.
pub fn get_staged_transaction(db: &Database, options: StagedTransactionsQueryOptions) -> (found: Option<Entry>)
    requires
        db.wf(),
    ensures
        found == entry_selected(db.staged(), options),
{
    db.staged_table().select_one(options)
}

} // verus!
