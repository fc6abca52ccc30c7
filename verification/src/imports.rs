//! Operations on imports: loading a statement, editing, discarding and
//! promoting.

use vstd::prelude::*;
use crate::accounts::{first_of, DeleteResult};
use crate::database::{
    approval_refusal, holds_statement, staged_rows, staging_refusal, with_mark, Database, Import,
};
use crate::entry::{fresh_id, Entry};
use crate::error::LedgerError;
use crate::helpers::{import_sort_pair, ImportsQueryOptions};
use crate::ledger::promoted;
use crate::queries::{select, selected};
use crate::sequence::high_water_mark;
use crate::statement::{all_amounts_valid, Statement};
use crate::table::only_changed;
use crate::utils::{fresh_ids, get_current_datetime};

verus! {

/// The identifiers of the rows, in their order.
pub open spec fn ids_of(rows: Seq<Entry>) -> Seq<u128> {
    Seq::new(rows.len(), |j: int| rows[j].id)
}

/// The imports that a query yields.
pub open spec fn imports_selected(db: Database, options: ImportsQueryOptions) -> Seq<Import> {
    selected(
        db.imports(),
        options.filter,
        import_sort_pair(options.sort),
        options.offset,
        options.limit,
    )
}

/// The import that a query for one import yields: the import with the
/// identifier where the filter names one, whatever else it asks for; else
/// the first import that the query yields.
pub open spec fn import_selected(db: Database, options: ImportsQueryOptions) -> Option<Import> {
    if options.filter is Some && options.filter.unwrap().id is Some {
        let id = options.filter.unwrap().id.unwrap();
        if db.has_import(id) {
            Some(db.imports()[db.import_index(id)])
        } else {
            None
        }
    } else {
        first_of(
            selected(
                db.imports(),
                options.filter,
                import_sort_pair(options.sort),
                options.offset,
                Some(1u64),
            ),
        )
    }
}

/// What a successful load of a statement leaves: a new import, last among
/// the imports, bound as asked and dated by the statement, with the
/// statement's lines as its staged entries, numbered from one in the order
/// of the lines, each balance the running sum of the signed amounts.
pub open spec fn loaded(
    before: Database,
    after: Database,
    statement: Statement,
    account_id: Option<u128>,
    id: u128,
) -> bool {
    &&& !before.has_import(id)
    &&& after.imports().len() == before.imports().len() + 1
    &&& after.imports().drop_last() == before.imports()
    &&& after.imports().last().id == id
    &&& after.imports().last().account_id == account_id
    &&& after.imports().last().source_file_date == statement.date
    &&& after.staged().len() == before.staged().len() + 1
    &&& after.staged().drop_last() == before.staged()
    &&& after.staged().last().scope() == id
    &&& after.staged().last()@ == staged_rows(
        statement.transactions@,
        ids_of(after.staged().last()@),
        id,
    )
    &&& holds_statement(after.staged().last()@, statement.transactions@)
}

/// The outcome of a load is the one that the rules of staging give for
/// some identifier of the import and some identifiers of its entries, one
/// per line: the error for which they refuse the load, with nothing
/// changed, or the import loaded under that identifier.
pub open spec fn load_outcome(
    before: Database,
    after: Database,
    statement: Statement,
    account_id: Option<u128>,
    result: Result<u128, LedgerError>,
) -> bool {
    exists|import_id: u128, ids: Seq<u128>|
        ids.len() == statement.transactions@.len() && match #[trigger] staging_refusal(
            before,
            import_id,
            account_id,
            statement.transactions@,
            ids,
        ) {
            Some(error) => result == Err::<u128, LedgerError>(error) && after.same_imports(&before),
            None => result == Ok::<u128, LedgerError>(import_id) && loaded(
                before,
                after,
                statement,
                account_id,
                import_id,
            ),
        }
}

/// The outcome of a promotion is the one that the rules of promotion give
/// for some new identifiers, one per staged entry: the error for which
/// they refuse it, with nothing changed, or the import promoted.
pub open spec fn approval_outcome(
    before: Database,
    after: Database,
    id: u128,
    account_id: u128,
    result: Result<(), LedgerError>,
) -> bool {
    exists|ids: Seq<u128>|
        (before.has_import(id) ==> ids.len() == before.staged()[before.import_index(id)]@.len())
            && match #[trigger] approval_refusal(before, id, account_id, ids) {
            Some(error) => result == Err::<(), LedgerError>(error) && after.same_as(&before),
            None => result is Ok && approved(before, after, id, account_id),
        }
}

/// Loads a statement into a new import under fresh identifiers.
fn load_statement(db: &mut Database, statement: &Statement, account_id: Option<u128>) -> (result:
    Result<u128, LedgerError>)
    requires
        old(db).wf(),
    ensures
        final(db).wf(),
        final(db).same_accounts(old(db)),
        account_id is Some && !old(db).has_account(account_id.unwrap()) ==> result == Err::<
            u128,
            LedgerError,
        >(LedgerError::NotFound),
        (account_id is None || old(db).has_account(account_id.unwrap())) && (
        statement.transactions@.len() == 0 || !all_amounts_valid(statement.transactions@))
            ==> result == Err::<u128, LedgerError>(LedgerError::ValidationFailure),
        account_id is None ==> result != Err::<u128, LedgerError>(LedgerError::NotFound),
        match result {
            Ok(id) => loaded(*old(db), *final(db), *statement, account_id, id),
            Err(error) => final(db).same_imports(old(db)) && (error == LedgerError::NotFound
                || error == LedgerError::ValidationFailure || error
                == LedgerError::ConstraintViolation),
        },
        load_outcome(*old(db), *final(db), *statement, account_id, result),
{
    let import_id: u128 = fresh_id();
    let ids = fresh_ids(statement.transactions.len());
    let now: i64 = get_current_datetime();
    let ghost refusal = staging_refusal(
        *old(db),
        import_id,
        account_id,
        statement.transactions@,
        ids@,
    );
    match db.stage_statement(import_id, account_id, statement, &ids, now) {
        Ok(_) => {
            proof {
                let rows = db.staged().last()@;
                assert(ids_of(rows) =~= ids@);
                assert(db.imports().drop_last() =~= old(db).imports());
                assert(refusal is None);
            }
            Ok(import_id)
        },
        Err(error) => {
            assert(refusal == Some(error));
            Err(error)
        },
    }
}

/// Loads a statement into a new import that is bound to the account
/// given, and hands back the identifier of the import. The lines of the
/// statement become its staged entries, numbered from one in the order of
/// the lines; each entry's amount is the deposit where there is one, else
/// the withdrawal, negative; each balance is the running sum of the
/// amounts.
///
/// Refused with `NotFound` where there is no such account, and with
/// `ValidationFailure` for a statement without lines, a line with a
/// negative withdrawal or deposit, or a balance that cannot be stored. The
/// identifiers are drawn at random: should one be taken, the call is
/// refused with `ConstraintViolation`. A refused call changes nothing.
pub fn create_import(db: &mut Database, statement: &Statement, account_id: &u128) -> (result:
    Result<u128, LedgerError>)
    requires
        old(db).wf(),
    ensures
        final(db).wf(),
        final(db).same_accounts(old(db)),
        !old(db).has_account(*account_id) ==> result == Err::<u128, LedgerError>(
            LedgerError::NotFound,
        ),
        old(db).has_account(*account_id) && (statement.transactions@.len() == 0
            || !all_amounts_valid(statement.transactions@)) ==> result == Err::<
            u128,
            LedgerError,
        >(LedgerError::ValidationFailure),
        match result {
            Ok(id) => loaded(*old(db), *final(db), *statement, Some(*account_id), id),
            Err(error) => final(db).same_imports(old(db)) && (error == LedgerError::NotFound
                || error == LedgerError::ValidationFailure || error
                == LedgerError::ConstraintViolation),
        },
        load_outcome(*old(db), *final(db), *statement, Some(*account_id), result),
{
    load_statement(db, statement, Some(*account_id))
}

/// Loads a statement into a new import that is bound to no account yet,
/// and hands back the identifier of the import. The staged entries are
/// those that `create_import` makes.
///
/// Refused with `ValidationFailure` for a statement without lines, a line
/// with a negative withdrawal or deposit, or a balance that cannot be
/// stored. The identifiers are drawn at random: should one be taken, the
/// call is refused with `ConstraintViolation`. A refused call changes
/// nothing.
pub fn set_stage_statement(db: &mut Database, statement: &Statement) -> (result: Result<
    u128,
    LedgerError,
>)
    requires
        old(db).wf(),
    ensures
        final(db).wf(),
        final(db).same_accounts(old(db)),
        statement.transactions@.len() == 0 || !all_amounts_valid(statement.transactions@)
            ==> result == Err::<u128, LedgerError>(LedgerError::ValidationFailure),
        match result {
            Ok(id) => loaded(*old(db), *final(db), *statement, None, id),
            Err(error) => final(db).same_imports(old(db)) && (error
                == LedgerError::ValidationFailure || error == LedgerError::ConstraintViolation),
        },
        load_outcome(*old(db), *final(db), *statement, None, result),
{
    load_statement(db, statement, None)
}

/// Binds the import with the identifier to another account, where one is
/// given, and hands the import back. Refused with `NotFound`, and without
/// any change, where there is no such import or no such account.
pub fn update_import(db: &mut Database, id: u128, account_id: Option<u128>) -> (result: Result<
    Import,
    LedgerError,
>)
    requires
        old(db).wf(),
    ensures
        final(db).wf(),
        final(db).same_accounts(old(db)),
        final(db).staged() == old(db).staged(),
        !old(db).has_import(id) || (account_id is Some && !old(db).has_account(
            account_id.unwrap(),
        )) ==> result == Err::<Import, LedgerError>(LedgerError::NotFound) && final(db).same_imports(old(db)),
        old(db).has_import(id) && (account_id is None || old(db).has_account(
            account_id.unwrap(),
        )) ==> {
            let at = old(db).import_index(id);
            let import = Import {
                account_id: if account_id is Some {
                    account_id
                } else {
                    old(db).imports()[at].account_id
                },
                ..old(db).imports()[at]
            };
            &&& result == Ok::<Import, LedgerError>(import)
            &&& final(db).imports() == old(db).imports().update(at, import)
        },
{
    db.rebind_import(id, account_id)
}

/// Deletes the import with the identifier, and its staged entries with
/// it. Refused with `NotFound`, and without any change, where there is no
/// such import.
pub fn delete_import(db: &mut Database, id: u128) -> (result: Result<DeleteResult, LedgerError>)
    requires
        old(db).wf(),
    ensures
        final(db).wf(),
        final(db).same_accounts(old(db)),
        !old(db).has_import(id) ==> result == Err::<DeleteResult, LedgerError>(
            LedgerError::NotFound,
        ) && final(db).same_imports(old(db)),
        old(db).has_import(id) ==> result == Ok::<DeleteResult, LedgerError>(
            DeleteResult { rows_affected: 1 },
        ) && !final(db).has_import(id) && final(db).imports() == old(db).imports().remove(
            old(db).import_index(id),
        ) && final(db).staged() == old(db).staged().remove(old(db).import_index(id)),
{
    match db.discard_import(id) {
        Ok(_) => Ok(DeleteResult { rows_affected: 1 }),
        Err(error) => Err(error),
    }
}

/// What a successful promotion leaves: the staged entries stand behind the
/// account's posted entries, each under a new identifier, numbered at the
/// account's former high-water mark plus its staged number, and otherwise
/// as they were staged, balance included; the account's mark has risen by
/// the highest staged number; the import and its staged entries are gone.
pub open spec fn approved(before: Database, after: Database, id: u128, account_id: u128) -> bool {
    let a = before.account_index(account_id);
    let i = before.import_index(id);
    let rows = before.posted()[a]@;
    let staged = before.staged()[i]@;
    let more = after.posted()[a]@.skip(rows.len() as int);
    &&& only_changed(before.posted(), after.posted(), a)
    &&& after.posted()[a]@ == rows + promoted(staged, account_id, high_water_mark(rows), ids_of(more))
    &&& after.accounts() == before.accounts().update(
        a,
        with_mark(
            before.accounts()[a],
            (high_water_mark(rows) + high_water_mark(staged)) as i64,
        ),
    )
    &&& !after.has_import(id)
    &&& after.imports() == before.imports().remove(i)
    &&& after.staged() == before.staged().remove(i)
}

/// Promotes the import with the identifier to the account given: its
/// staged entries become posted entries of the account, numbered to go on
/// after the account's high-water mark, and the import is deleted.
///
/// Refused with `NotFound` where there is no such import or no such
/// account, and with `ValidationFailure` where a number cannot be stored.
/// The new identifiers are drawn at random: should one be taken, the call
/// is refused with `ConstraintViolation`. A refused call changes nothing.
pub fn approve_import(db: &mut Database, id: u128, account_id: u128) -> (result: Result<
    (),
    LedgerError,
>)
    requires
        old(db).wf(),
    ensures
        final(db).wf(),
        !old(db).has_import(id) || !old(db).has_account(account_id) ==> result == Err::<
            (),
            LedgerError,
        >(LedgerError::NotFound),
        old(db).has_import(id) && old(db).has_account(account_id) && high_water_mark(
            old(db).posted()[old(db).account_index(account_id)]@,
        ) + high_water_mark(old(db).staged()[old(db).import_index(id)]@) > i64::MAX ==> result
            == Err::<(), LedgerError>(LedgerError::ValidationFailure),
        match result {
            Ok(_) => old(db).has_import(id) && old(db).has_account(account_id) && approved(
                *old(db),
                *final(db),
                id,
                account_id,
            ),
            Err(error) => final(db).same_as(old(db)) && (error == LedgerError::NotFound || error
                == LedgerError::ValidationFailure || error == LedgerError::ConstraintViolation),
        },
        approval_outcome(*old(db), *final(db), id, account_id, result),
{
    let count: usize = match db.find_import(id) {
        Some(at) => db.staged_table().at(at).len(),
        None => {
            assert(approval_refusal(*old(db), id, account_id, Seq::<u128>::empty()) == Some(
                LedgerError::NotFound,
            ));
            return Err(LedgerError::NotFound);
        },
    };
    let ids = fresh_ids(count);
    let ghost refusal = approval_refusal(*old(db), id, account_id, ids@);
    match db.promote_import(id, account_id, &ids) {
        Ok(_) => {
            proof {
                let a = old(db).account_index(account_id);
                let rows = old(db).posted()[a]@;
                let more = db.posted()[a]@.skip(rows.len() as int);
                assert(ids_of(more) =~= ids@);
                assert(refusal is None);
            }
            Ok(())
        },
        Err(error) => {
            assert(refusal == Some(error));
            Err(error)
        },
    }
}

/// The imports that pass the filter of the query, sorted as it asks,
/// behind its offset and up to its limit.
pub fn get_imports(db: &Database, options: ImportsQueryOptions) -> (rows: Vec<Import>)
    ensures
        rows@ == imports_selected(*db, options),
{
    let sort = match options.sort {
        Some(sort) => Some((sort.column, sort.direction)),
        None => None,
    };
    select(db.import_rows(), &options.filter, sort, options.offset, options.limit)
}

/// One import: the one with the identifier where the filter names one,
/// else the first that the query yields.
pub fn get_import(db: &Database, options: ImportsQueryOptions) -> (found: Option<Import>)
    requires
        db.wf(),
    ensures
        found == import_selected(*db, options),
{
    if let Some(filter) = &options.filter {
        if let Some(id) = filter.id {
            return db.import(id);
        }
    }
    let sort = match options.sort {
        Some(sort) => Some((sort.column, sort.direction)),
        None => None,
    };
    let rows = select(db.import_rows(), &options.filter, sort, options.offset, Some(1u64));
    if rows.len() > 0 {
        Some(rows[0])
    } else {
        None
    }
}

} // verus!
