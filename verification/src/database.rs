//! Accounts with their posted ledgers and imports with their staged
//! ledgers, and the workflow that takes an import to an account.

use vstd::prelude::*;
use crate::changes::{inserts_of, RowChange};
use crate::entry::Entry;
use crate::error::LedgerError;
use crate::ledger::{
    batch_refusal, batch_rows, promoted, promotion_refusal, update_changes, update_refusal, updated,
    EntryPatch, Ledger,
};
use crate::sequence::{
    delete_changes, delete_refusal, deleted, high_water_mark, index_of, insert_changes,
    insert_refusal, inserted,
};
use crate::balance::prefix_sums_hold;
use crate::statement::{
    all_amounts_valid, amounts_valid, entries_from_statement, signed_amount, staged_entries,
    AccountType, Statement, Transaction,
};
use crate::table::{
    has_scope, holder, ledgers_wf, lemma_only_changed_wf, only_changed, scope_index, EntryTable,
};

verus! {

/// An account. `max_sequence_number` is the highest sequence number among
/// the account's posted entries, or zero where it has none; the database
/// keeps it so. `updated_at` is in seconds since the Unix epoch.
#[derive(Debug, PartialEq, Eq)]
pub struct Account {
    pub id: u128,
    pub account_number: String,
    pub account_type: AccountType,
    pub max_sequence_number: i64,
    pub updated_at: i64,
}

impl Account {
    /// A copy of the account, field for field.
    pub fn duplicate(&self) -> (copy: Account)
        ensures
            copy == *self,
    {
        Account {
            id: self.id,
            account_number: self.account_number.clone(),
            account_type: self.account_type,
            max_sequence_number: self.max_sequence_number,
            updated_at: self.updated_at,
        }
    }
}

/// An import batch: the staged entries of one statement, on their way to
/// an account. The two dates are in seconds since the Unix epoch.
#[derive(Clone, Copy, Debug, PartialEq, Eq, Structural)]
pub struct Import {
    pub id: u128,
    pub account_id: Option<u128>,
    pub import_date: i64,
    pub source_file_date: i64,
}

/// The accounts with their posted ledgers and the imports with their
/// staged ledgers.
#[derive(Debug)]
pub struct Database {
    accounts: Vec<Account>,
    posted: EntryTable,
    imports: Vec<Import>,
    staged: EntryTable,
}

/// The account with the new values in it.
pub open spec fn account_patched(
    account: Account,
    account_type: Option<AccountType>,
    account_number: Option<String>,
    now: i64,
) -> Account {
    Account {
        id: account.id,
        account_number: match account_number {
            Some(number) => number,
            None => account.account_number,
        },
        account_type: match account_type {
            Some(kind) => kind,
            None => account.account_type,
        },
        max_sequence_number: account.max_sequence_number,
        updated_at: now,
    }
}

/// The account with another high-water mark.
pub open spec fn with_mark(account: Account, mark: i64) -> Account {
    Account { max_sequence_number: mark, ..account }
}

/// The import is bound to the account.
pub open spec fn bound_to(import: Import, account: u128) -> bool {
    import.account_id == Some(account)
}

/// The imports that are not bound to the account, in their order.
pub open spec fn imports_without(imports: Seq<Import>, account: u128) -> Seq<Import>
    decreases imports.len(),
{
    if imports.len() == 0 {
        Seq::<Import>::empty()
    } else if bound_to(imports[0], account) {
        imports_without(imports.drop_first(), account)
    } else {
        seq![imports[0]] + imports_without(imports.drop_first(), account)
    }
}

/// The staged ledgers of the imports that are not bound to the account,
/// in their order.
pub open spec fn staged_without(imports: Seq<Import>, staged: Seq<Ledger>, account: u128) -> Seq<
    Ledger,
>
    decreases imports.len(),
{
    if imports.len() == 0 || staged.len() == 0 {
        Seq::<Ledger>::empty()
    } else if bound_to(imports[0], account) {
        staged_without(imports.drop_first(), staged.drop_first(), account)
    } else {
        seq![staged[0]] + staged_without(imports.drop_first(), staged.drop_first(), account)
    }
}

/// Why the staging of a statement is refused, if it is.
pub open spec fn staging_refusal(
    db: Database,
    import_id: u128,
    account_id: Option<u128>,
    transactions: Seq<Transaction>,
    ids: Seq<u128>,
) -> Option<LedgerError> {
    if account_id is Some && !db.has_account(account_id.unwrap()) {
        Some(LedgerError::NotFound)
    } else if transactions.len() == 0 || ids.len() != transactions.len() || !all_amounts_valid(
        transactions,
    ) || transactions.len() >= i64::MAX {
        Some(LedgerError::ValidationFailure)
    } else if db.has_import(import_id) {
        Some(LedgerError::ConstraintViolation)
    } else {
        batch_refusal(
            Seq::<Entry>::empty(),
            import_id,
            staged_entries(transactions, ids, import_id),
        )
    }
}

/// The staged rows of a statement that was loaded into a fresh import:
/// numbered from one in the order of the lines, each balance the running
/// sum of the signed amounts up to its line.
pub open spec fn staged_rows(transactions: Seq<Transaction>, ids: Seq<u128>, import_id: u128) -> Seq<
    Entry,
> {
    batch_rows(Seq::<Entry>::empty(), staged_entries(transactions, ids, import_id))
}

/// The rows are what a loaded statement leaves: one row per line, in the
/// order of the lines and numbered from one, each with the signed amount
/// of its line, and each balance the running sum of the amounts up to its
/// row, whatever balance the statement gave.
pub open spec fn holds_statement(rows: Seq<Entry>, transactions: Seq<Transaction>) -> bool {
    &&& rows.len() == transactions.len()
    &&& forall|j: int|
        0 <= j < rows.len() ==> (#[trigger] rows[j]).sequence_number == j + 1 && rows[j].amount
            == signed_amount(transactions[j])
    &&& prefix_sums_hold(rows)
}

/// Why a promotion is refused, if it is.
pub open spec fn approval_refusal(db: Database, import_id: u128, account_id: u128, ids: Seq<u128>) -> Option<
    LedgerError,
> {
    if !db.has_import(import_id) || !db.has_account(account_id) {
        Some(LedgerError::NotFound)
    } else {
        promotion_refusal(
            db.posted()[db.account_index(account_id)]@,
            account_id,
            db.staged()[db.import_index(import_id)]@,
            ids,
        )
    }
}

/// The states of an import.
#[derive(Clone, Copy, Debug, PartialEq, Eq, Structural)]
pub enum ImportState {
    /// The import and its staged entries exist and can be edited.
    Staged,
    /// The entries were posted to an account; the import is gone.
    Promoted,
    /// The import was deleted without being posted.
    Discarded,
}

/// What can be asked of an import.
#[derive(Clone, Copy, Debug, PartialEq, Eq, Structural)]
pub enum ImportEvent {
    Approve,
    Discard,
}

/// The state that an import is in after an event: a staged import is
/// promoted by an approval and discarded by a discard; in either of these
/// two states it is gone.
pub open spec fn next_state(state: ImportState, event: ImportEvent) -> Option<ImportState> {
    match state {
        ImportState::Staged => Some(
            match event {
                ImportEvent::Approve => ImportState::Promoted,
                ImportEvent::Discard => ImportState::Discarded,
            },
        ),
        _ => None,
    }
}

/// The state that an import is in after an event. Refused with `NotFound`
/// for an import that was promoted or discarded: it no longer exists.
pub fn transition(state: ImportState, event: ImportEvent) -> (result: Result<
    ImportState,
    LedgerError,
>)
    ensures
        match next_state(state, event) {
            Some(next) => result == Ok::<ImportState, LedgerError>(next),
            None => result == Err::<ImportState, LedgerError>(LedgerError::NotFound),
        },
{
    match state {
        ImportState::Staged => match event {
            ImportEvent::Approve => Ok(ImportState::Promoted),
            ImportEvent::Discard => Ok(ImportState::Discarded),
        },
        _ => Err(LedgerError::NotFound),
    }
}

impl Database {
    /// The accounts.
    pub closed spec fn accounts(&self) -> Seq<Account> {
        self.accounts@
    }

    /// The posted ledgers: the one at place `i` is that of account `i`.
    pub closed spec fn posted(&self) -> Seq<Ledger> {
        self.posted@
    }

    /// The imports.
    pub closed spec fn imports(&self) -> Seq<Import> {
        self.imports@
    }

    /// The staged ledgers: the one at place `i` is that of import `i`.
    pub closed spec fn staged(&self) -> Seq<Ledger> {
        self.staged@
    }

    /// What every database satisfies: each account has its posted ledger
    /// and each import its staged ledger, every ledger is well formed, no
    /// identifier of an account or an import occurs twice, and each
    /// account's high-water mark is the highest number among its posted
    /// entries, or zero.
    pub open spec fn wf(&self) -> bool {
        &&& ledgers_wf(self.posted())
        &&& ledgers_wf(self.staged())
        &&& self.accounts().len() == self.posted().len()
        &&& self.imports().len() == self.staged().len()
        &&& forall|i: int|
            0 <= i < self.accounts().len() ==> (#[trigger] self.accounts()[i]).id
                == self.posted()[i].scope() && self.accounts()[i].max_sequence_number
                == high_water_mark(self.posted()[i]@)
        &&& forall|i: int|
            0 <= i < self.imports().len() ==> (#[trigger] self.imports()[i]).id
                == self.staged()[i].scope()
    }

    /// There is an account with the identifier.
    pub open spec fn has_account(&self, id: u128) -> bool {
        has_scope(self.posted(), id)
    }

    /// The place of the account with the identifier.
    pub open spec fn account_index(&self, id: u128) -> int {
        scope_index(self.posted(), id)
    }

    /// There is an import with the identifier.
    pub open spec fn has_import(&self, id: u128) -> bool {
        has_scope(self.staged(), id)
    }

    /// The place of the import with the identifier.
    pub open spec fn import_index(&self, id: u128) -> int {
        scope_index(self.staged(), id)
    }

    /// The accounts and their posted ledgers are those of `other`.
    pub open spec fn same_accounts(&self, other: &Database) -> bool {
        self.accounts() == other.accounts() && self.posted() == other.posted()
    }

    /// The imports and their staged ledgers are those of `other`.
    pub open spec fn same_imports(&self, other: &Database) -> bool {
        self.imports() == other.imports() && self.staged() == other.staged()
    }

    /// Nothing differs from `other`.
    pub open spec fn same_as(&self, other: &Database) -> bool {
        self.same_accounts(other) && self.same_imports(other)
    }

    /// An empty database.
    pub fn new() -> (db: Database)
        ensures
            db.wf(),
            db.accounts() == Seq::<Account>::empty(),
            db.posted() == Seq::<Ledger>::empty(),
            db.imports() == Seq::<Import>::empty(),
            db.staged() == Seq::<Ledger>::empty(),
    {
        Database {
            accounts: Vec::new(),
            posted: EntryTable::new(),
            imports: Vec::new(),
            staged: EntryTable::new(),
        }
    }

    /// The place of the account with the identifier, if there is one.
    pub fn find_account(&self, id: u128) -> (found: Option<usize>)
        requires
            self.wf(),
        ensures
            match found {
                Some(at) => self.has_account(id) && at == self.account_index(id) && at
                    < self.accounts().len() && self.accounts()[at as int].id == id,
                None => !self.has_account(id),
            },
    {
        let found = self.posted.find_scope(id);
        proof {
            if let Some(at) = found {
                assert(self.accounts()[at as int].id == self.posted()[at as int].scope());
            }
        }
        found
    }

    /// The place of the import with the identifier, if there is one.
    pub fn find_import(&self, id: u128) -> (found: Option<usize>)
        requires
            self.wf(),
        ensures
            match found {
                Some(at) => self.has_import(id) && at == self.import_index(id) && at
                    < self.imports().len() && self.imports()[at as int].id == id,
                None => !self.has_import(id),
            },
    {
        let found = self.staged.find_scope(id);
        proof {
            if let Some(at) = found {
                assert(self.imports()[at as int].id == self.staged()[at as int].scope());
            }
        }
        found
    }

    /// The accounts, in the order in which they were created.
    pub fn account_rows(&self) -> (rows: &Vec<Account>)
        ensures
            rows@ == self.accounts(),
    {
        &self.accounts
    }

    /// The imports, in the order in which they were created.
    pub fn import_rows(&self) -> (rows: &Vec<Import>)
        ensures
            rows@ == self.imports(),
    {
        &self.imports
    }

    /// The table of posted entries.
    pub fn posted_table(&self) -> (table: &EntryTable)
        ensures
            table@ == self.posted(),
    {
        &self.posted
    }

    /// The table of staged entries.
    pub fn staged_table(&self) -> (table: &EntryTable)
        ensures
            table@ == self.staged(),
    {
        &self.staged
    }

    /// Creates an account under the identifier given, without entries and
    /// with a high-water mark of zero. Refused with `ConstraintViolation`,
    /// and without any change, where an account has the identifier
    /// already.
    pub fn add_account(
        &mut self,
        id: u128,
        account_number: String,
        account_type: AccountType,
        now: i64,
    ) -> (result: Result<Account, LedgerError>)
        requires
            old(self).wf(),
        ensures
            final(self).wf(),
            final(self).same_imports(old(self)),
            old(self).has_account(id) ==> result == Err::<Account, LedgerError>(
                LedgerError::ConstraintViolation,
            ) && final(self).same_accounts(old(self)),
            !old(self).has_account(id) ==> {
                let account = Account {
                    id,
                    account_number,
                    account_type,
                    max_sequence_number: 0,
                    updated_at: now,
                };
                &&& result == Ok::<Account, LedgerError>(account)
                &&& final(self).accounts() == old(self).accounts().push(account)
                &&& final(self).posted().len() == old(self).posted().len() + 1
                &&& final(self).posted().drop_last() == old(self).posted()
                &&& final(self).posted().last().scope() == id
                &&& final(self).posted().last()@ == Seq::<Entry>::empty()
            },
    {
        let ghost before = *self;
        match self.posted.add_scope(id) {
            Ok(_) => {},
            Err(error) => {
                return Err(error);
            },
        }
        let account = Account { id, account_number, account_type, max_sequence_number: 0, updated_at: now };
        let copy = account.duplicate();
        self.accounts.push(account);
        proof {
            assert forall|i: int| 0 <= i < self.accounts().len() implies (
            #[trigger] self.accounts()[i]).id == self.posted()[i].scope()
                && self.accounts()[i].max_sequence_number == high_water_mark(
                self.posted()[i]@,
            ) by {
                if i < before.accounts().len() {
                    assert(self.posted()[i] == self.posted().drop_last()[i]);
                    assert(self.accounts()[i] == before.accounts()[i]);
                }
            }
        }
        Ok(copy)
    }

    /// Changes the type, the number or both of the account with the
    /// identifier, and sets the time of its last change. Refused with
    /// `NotFound`, and without any change, where there is no such account.
    pub fn change_account(
        &mut self,
        id: u128,
        account_type: Option<AccountType>,
        account_number: Option<String>,
        now: i64,
    ) -> (result: Result<Account, LedgerError>)
        requires
            old(self).wf(),
        ensures
            final(self).wf(),
            final(self).same_imports(old(self)),
            final(self).posted() == old(self).posted(),
            !old(self).has_account(id) ==> result == Err::<Account, LedgerError>(
                LedgerError::NotFound,
            ) && final(self).same_accounts(old(self)),
            old(self).has_account(id) ==> {
                let at = old(self).account_index(id);
                let account = account_patched(
                    old(self).accounts()[at],
                    account_type,
                    account_number,
                    now,
                );
                &&& result == Ok::<Account, LedgerError>(account)
                &&& final(self).accounts() == old(self).accounts().update(at, account)
            },
    {
        let at: usize = match self.find_account(id) {
            Some(at) => at,
            None => {
                return Err(LedgerError::NotFound);
            },
        };
        let ghost before = *self;
        if let Some(kind) = account_type {
            self.accounts[at].account_type = kind;
        }
        if let Some(number) = account_number {
            self.accounts[at].account_number = number;
        }
        self.accounts[at].updated_at = now;
        proof {
            assert(self.accounts() =~= before.accounts().update(
                at as int,
                account_patched(before.accounts()[at as int], account_type, account_number, now),
            ));
            assert forall|i: int| 0 <= i < self.accounts().len() implies (
            #[trigger] self.accounts()[i]).id == self.posted()[i].scope()
                && self.accounts()[i].max_sequence_number == high_water_mark(
                self.posted()[i]@,
            ) by {
                assert(before.accounts()[i].id == before.posted()[i].scope());
            }
        }
        Ok(self.accounts[at].duplicate())
    }

    /// The account with the identifier, if there is one.
    pub fn account(&self, id: u128) -> (found: Option<&Account>)
        requires
            self.wf(),
        ensures
            match found {
                Some(account) => self.has_account(id) && *account
                    == self.accounts()[self.account_index(id)],
                None => !self.has_account(id),
            },
    {
        match self.find_account(id) {
            Some(at) => Some(&self.accounts[at]),
            None => None,
        }
    }

    /// The import with the identifier, if there is one.
    pub fn import(&self, id: u128) -> (found: Option<Import>)
        requires
            self.wf(),
        ensures
            match found {
                Some(import) => self.has_import(id) && import
                    == self.imports()[self.import_index(id)],
                None => !self.has_import(id),
            },
    {
        match self.find_import(id) {
            Some(at) => Some(self.imports[at]),
            None => None,
        }
    }

    /// Brings the high-water mark of the account at a place in line with
    /// its posted ledger.
    fn refresh_mark(&mut self, at: usize)
        requires
            at < old(self).accounts().len(),
            old(self).accounts().len() == old(self).posted().len(),
        ensures
            final(self).posted() == old(self).posted(),
            final(self).same_imports(old(self)),
            final(self).accounts() == old(self).accounts().update(
                at as int,
                with_mark(
                    old(self).accounts()[at as int],
                    high_water_mark(old(self).posted()[at as int]@) as i64,
                ),
            ),
    {
        let mark: i64 = self.posted.at(at).max_sequence_number();
        self.accounts[at].max_sequence_number = mark;
        assert(self.accounts() =~= old(self).accounts().update(
            at as int,
            with_mark(old(self).accounts()[at as int], mark),
        ));
    }

    /// Keeps the database well formed after one posted ledger changed and
    /// its account's mark was brought in line.
    proof fn lemma_posted_changed(before: Database, after: Database, at: int)
        requires
            before.wf(),
            0 <= at < before.posted().len(),
            only_changed(before.posted(), after.posted(), at),
            after.posted()[at].wf(),
            after.same_imports(&before),
            after.accounts() == before.accounts().update(
                at,
                with_mark(before.accounts()[at], high_water_mark(after.posted()[at]@) as i64),
            ),
            0 <= high_water_mark(after.posted()[at]@) <= i64::MAX,
        ensures
            after.wf(),
    {
        lemma_only_changed_wf(before.posted(), after.posted(), at);
        assert forall|i: int| 0 <= i < after.accounts().len() implies (
        #[trigger] after.accounts()[i]).id == after.posted()[i].scope()
            && after.accounts()[i].max_sequence_number == high_water_mark(after.posted()[i]@) by {
            assert(before.accounts()[i].id == before.posted()[i].scope());
            if i != at {
                assert(after.posted()[i] == before.posted()[i]);
            }
        }
    }

    /// Keeps the database well formed after one staged ledger changed.
    proof fn lemma_staged_changed(before: Database, after: Database, at: int)
        requires
            before.wf(),
            0 <= at < before.staged().len(),
            only_changed(before.staged(), after.staged(), at),
            after.staged()[at].wf(),
            after.same_accounts(&before),
            after.imports() == before.imports(),
        ensures
            after.wf(),
    {
        lemma_only_changed_wf(before.staged(), after.staged(), at);
        assert forall|i: int| 0 <= i < after.imports().len() implies (
        #[trigger] after.imports()[i]).id == after.staged()[i].scope() by {
            assert(before.imports()[i].id == before.staged()[i].scope());
            if i != at {
                assert(after.staged()[i] == before.staged()[i]);
            }
        }
    }

    /// Inserts a posted entry into the ledger of its account, as
    /// `Ledger::insert` does, and keeps the account's high-water mark.
    /// Refused with `NotFound` where there is no such account. A refused
    /// insert changes nothing.
    pub fn post_entry(&mut self, entry: Entry) -> (result: Result<Vec<RowChange>, LedgerError>)
        requires
            old(self).wf(),
        ensures
            final(self).wf(),
            final(self).same_imports(old(self)),
            !old(self).has_account(entry.scope_id) ==> result == Err::<
                Vec<RowChange>,
                LedgerError,
            >(LedgerError::NotFound) && final(self).same_accounts(old(self)),
            old(self).has_account(entry.scope_id) ==> {
                let at = old(self).account_index(entry.scope_id);
                let rows = old(self).posted()[at]@;
                match insert_refusal(rows, entry.scope_id, entry) {
                    Some(error) => result == Err::<Vec<RowChange>, LedgerError>(error) && final(self).same_accounts(old(self)),
                    None => {
                        &&& result is Ok
                        &&& result.unwrap()@ == insert_changes(rows, entry)
                        &&& only_changed(old(self).posted(), final(self).posted(), at)
                        &&& final(self).posted()[at]@ == inserted(rows, entry)
                        &&& final(self).accounts() == old(self).accounts().update(
                            at,
                            with_mark(
                                old(self).accounts()[at],
                                high_water_mark(inserted(rows, entry)) as i64,
                            ),
                        )
                    },
                }
            },
    {
        let ghost before = *self;
        let at: usize = match self.find_account(entry.scope_id) {
            Some(at) => at,
            None => {
                return Err(LedgerError::NotFound);
            },
        };
        match self.posted.insert(entry) {
            Ok(changes) => {
                self.refresh_mark(at);
                proof {
                    crate::ledger::lemma_high_water_mark(
                        self.posted()[at as int]@,
                        self.posted()[at as int].scope(),
                    );
                    Self::lemma_posted_changed(before, *self, at as int);
                }
                Ok(changes)
            },
            Err(error) => Err(error),
        }
    }

    /// Deletes the posted entry with the identifier, as `Ledger::delete`
    /// does, and keeps the account's high-water mark. Refused with
    /// `NotFound` where no account holds such an entry. A refused delete
    /// changes nothing.
    pub fn remove_posted_entry(&mut self, id: u128) -> (result: Result<
        Vec<RowChange>,
        LedgerError,
    >)
        requires
            old(self).wf(),
        ensures
            final(self).wf(),
            final(self).same_imports(old(self)),
            holder(old(self).posted(), id) == old(self).posted().len() ==> result == Err::<
                Vec<RowChange>,
                LedgerError,
            >(LedgerError::NotFound) && final(self).same_accounts(old(self)),
            holder(old(self).posted(), id) < old(self).posted().len() ==> {
                let at = holder(old(self).posted(), id);
                let rows = old(self).posted()[at]@;
                match delete_refusal(rows, id) {
                    Some(error) => result == Err::<Vec<RowChange>, LedgerError>(error) && final(self).same_accounts(old(self)),
                    None => {
                        &&& result is Ok
                        &&& result.unwrap()@ == delete_changes(rows, index_of(rows, id))
                        &&& only_changed(old(self).posted(), final(self).posted(), at)
                        &&& final(self).posted()[at]@ == deleted(rows, index_of(rows, id))
                        &&& final(self).accounts() == old(self).accounts().update(
                            at,
                            with_mark(
                                old(self).accounts()[at],
                                high_water_mark(deleted(rows, index_of(rows, id))) as i64,
                            ),
                        )
                    },
                }
            },
    {
        let ghost before = *self;
        let at: usize = match self.posted.find_holder(id) {
            Some(at) => at,
            None => {
                return Err(LedgerError::NotFound);
            },
        };
        match self.posted.delete(id) {
            Ok(changes) => {
                self.refresh_mark(at);
                proof {
                    crate::ledger::lemma_high_water_mark(
                        self.posted()[at as int]@,
                        self.posted()[at as int].scope(),
                    );
                    Self::lemma_posted_changed(before, *self, at as int);
                }
                Ok(changes)
            },
            Err(error) => Err(error),
        }
    }

    /// Edits the posted entry with the identifier, as `Ledger::update`
    /// does, and keeps the account's high-water mark. Refused with
    /// `NotFound` where no account holds such an entry. A refused edit
    /// changes nothing.
    pub fn edit_posted_entry(&mut self, id: u128, patch: EntryPatch) -> (result: Result<
        Vec<RowChange>,
        LedgerError,
    >)
        requires
            old(self).wf(),
        ensures
            final(self).wf(),
            final(self).same_imports(old(self)),
            holder(old(self).posted(), id) == old(self).posted().len() ==> result == Err::<
                Vec<RowChange>,
                LedgerError,
            >(LedgerError::NotFound) && final(self).same_accounts(old(self)),
            holder(old(self).posted(), id) < old(self).posted().len() ==> {
                let at = holder(old(self).posted(), id);
                let rows = old(self).posted()[at]@;
                match update_refusal(rows, old(self).posted()[at].scope(), id, patch) {
                    Some(error) => result == Err::<Vec<RowChange>, LedgerError>(error) && final(self).same_accounts(old(self)),
                    None => {
                        &&& result is Ok
                        &&& result.unwrap()@ == update_changes(rows, index_of(rows, id), patch)
                        &&& only_changed(old(self).posted(), final(self).posted(), at)
                        &&& final(self).posted()[at]@ == updated(rows, index_of(rows, id), patch)
                        &&& final(self).accounts() == old(self).accounts().update(
                            at,
                            with_mark(
                                old(self).accounts()[at],
                                high_water_mark(updated(rows, index_of(rows, id), patch)) as i64,
                            ),
                        )
                    },
                }
            },
    {
        let ghost before = *self;
        let at: usize = match self.posted.find_holder(id) {
            Some(at) => at,
            None => {
                return Err(LedgerError::NotFound);
            },
        };
        match self.posted.update(id, patch) {
            Ok(changes) => {
                self.refresh_mark(at);
                proof {
                    crate::ledger::lemma_high_water_mark(
                        self.posted()[at as int]@,
                        self.posted()[at as int].scope(),
                    );
                    Self::lemma_posted_changed(before, *self, at as int);
                }
                Ok(changes)
            },
            Err(error) => Err(error),
        }
    }

    /// Inserts a staged entry into the ledger of its import, as
    /// `Ledger::insert` does. Refused with `NotFound` where there is no
    /// such import. A refused insert changes nothing.
    pub fn stage_entry(&mut self, entry: Entry) -> (result: Result<Vec<RowChange>, LedgerError>)
        requires
            old(self).wf(),
        ensures
            final(self).wf(),
            final(self).same_accounts(old(self)),
            final(self).imports() == old(self).imports(),
            !old(self).has_import(entry.scope_id) ==> result == Err::<Vec<RowChange>, LedgerError>(
                LedgerError::NotFound,
            ) && final(self).same_imports(old(self)),
            old(self).has_import(entry.scope_id) ==> {
                let at = old(self).import_index(entry.scope_id);
                let rows = old(self).staged()[at]@;
                match insert_refusal(rows, entry.scope_id, entry) {
                    Some(error) => result == Err::<Vec<RowChange>, LedgerError>(error) && final(self).same_imports(old(self)),
                    None => {
                        &&& result is Ok
                        &&& result.unwrap()@ == insert_changes(rows, entry)
                        &&& only_changed(old(self).staged(), final(self).staged(), at)
                        &&& final(self).staged()[at]@ == inserted(rows, entry)
                    },
                }
            },
    {
        let ghost before = *self;
        let at: usize = match self.find_import(entry.scope_id) {
            Some(at) => at,
            None => {
                return Err(LedgerError::NotFound);
            },
        };
        match self.staged.insert(entry) {
            Ok(changes) => {
                proof {
                    Self::lemma_staged_changed(before, *self, at as int);
                }
                Ok(changes)
            },
            Err(error) => Err(error),
        }
    }

    /// Deletes the staged entry with the identifier, as `Ledger::delete`
    /// does. Refused with `NotFound` where no import holds such an entry.
    /// A refused delete changes nothing.
    pub fn remove_staged_entry(&mut self, id: u128) -> (result: Result<
        Vec<RowChange>,
        LedgerError,
    >)
        requires
            old(self).wf(),
        ensures
            final(self).wf(),
            final(self).same_accounts(old(self)),
            final(self).imports() == old(self).imports(),
            holder(old(self).staged(), id) == old(self).staged().len() ==> result == Err::<
                Vec<RowChange>,
                LedgerError,
            >(LedgerError::NotFound) && final(self).same_imports(old(self)),
            holder(old(self).staged(), id) < old(self).staged().len() ==> {
                let at = holder(old(self).staged(), id);
                let rows = old(self).staged()[at]@;
                match delete_refusal(rows, id) {
                    Some(error) => result == Err::<Vec<RowChange>, LedgerError>(error) && final(self).same_imports(old(self)),
                    None => {
                        &&& result is Ok
                        &&& result.unwrap()@ == delete_changes(rows, index_of(rows, id))
                        &&& only_changed(old(self).staged(), final(self).staged(), at)
                        &&& final(self).staged()[at]@ == deleted(rows, index_of(rows, id))
                    },
                }
            },
    {
        let ghost before = *self;
        let at: usize = match self.staged.find_holder(id) {
            Some(at) => at,
            None => {
                return Err(LedgerError::NotFound);
            },
        };
        match self.staged.delete(id) {
            Ok(changes) => {
                proof {
                    Self::lemma_staged_changed(before, *self, at as int);
                }
                Ok(changes)
            },
            Err(error) => Err(error),
        }
    }

    /// Edits the staged entry with the identifier, as `Ledger::update`
    /// does. Refused with `NotFound` where no import holds such an entry.
    /// A refused edit changes nothing.
    pub fn edit_staged_entry(&mut self, id: u128, patch: EntryPatch) -> (result: Result<
        Vec<RowChange>,
        LedgerError,
    >)
        requires
            old(self).wf(),
        ensures
            final(self).wf(),
            final(self).same_accounts(old(self)),
            final(self).imports() == old(self).imports(),
            holder(old(self).staged(), id) == old(self).staged().len() ==> result == Err::<
                Vec<RowChange>,
                LedgerError,
            >(LedgerError::NotFound) && final(self).same_imports(old(self)),
            holder(old(self).staged(), id) < old(self).staged().len() ==> {
                let at = holder(old(self).staged(), id);
                let rows = old(self).staged()[at]@;
                match update_refusal(rows, old(self).staged()[at].scope(), id, patch) {
                    Some(error) => result == Err::<Vec<RowChange>, LedgerError>(error) && final(self).same_imports(old(self)),
                    None => {
                        &&& result is Ok
                        &&& result.unwrap()@ == update_changes(rows, index_of(rows, id), patch)
                        &&& only_changed(old(self).staged(), final(self).staged(), at)
                        &&& final(self).staged()[at]@ == updated(rows, index_of(rows, id), patch)
                    },
                }
            },
    {
        let ghost before = *self;
        let at: usize = match self.staged.find_holder(id) {
            Some(at) => at,
            None => {
                return Err(LedgerError::NotFound);
            },
        };
        match self.staged.update(id, patch) {
            Ok(changes) => {
                proof {
                    Self::lemma_staged_changed(before, *self, at as int);
                }
                Ok(changes)
            },
            Err(error) => Err(error),
        }
    }

    /// Loads a statement into a new import under the identifier given: the
    /// lines become staged entries under the identifiers of `entry_ids`,
    /// numbered from one in the order of the lines, each with the running
    /// sum of the signed amounts as its balance. The import is bound to
    /// the account where one is given, and dated `now`. The result lists
    /// one insert per staged entry.
    ///
    /// Refused with `NotFound` where the account given does not exist,
    /// with `ConstraintViolation` where an identifier is taken, and with
    /// `ValidationFailure` for a statement without lines, a line with a
    /// negative withdrawal or deposit, or a balance that cannot be stored.
    /// A refused load changes nothing.
    pub fn stage_statement(
        &mut self,
        import_id: u128,
        account_id: Option<u128>,
        statement: &Statement,
        entry_ids: &Vec<u128>,
        now: i64,
    ) -> (result: Result<Vec<RowChange>, LedgerError>)
        requires
            old(self).wf(),
        ensures
            final(self).wf(),
            final(self).same_accounts(old(self)),
            match staging_refusal(
                *old(self),
                import_id,
                account_id,
                statement.transactions@,
                entry_ids@,
            ) {
                Some(error) => result == Err::<Vec<RowChange>, LedgerError>(error) && final(self).same_imports(old(self)),
                None => {
                    let rows = staged_rows(statement.transactions@, entry_ids@, import_id);
                    &&& result is Ok
                    &&& result.unwrap()@ == inserts_of(rows)
                    &&& final(self).imports() == old(self).imports().push(
                        Import {
                            id: import_id,
                            account_id,
                            import_date: now,
                            source_file_date: statement.date,
                        },
                    )
                    &&& final(self).staged().len() == old(self).staged().len() + 1
                    &&& final(self).staged().drop_last() == old(self).staged()
                    &&& final(self).staged().last().scope() == import_id
                    &&& final(self).staged().last()@ == rows
                    &&& holds_statement(rows, statement.transactions@)
                },
            },
    {
        let ghost before = *self;
        if let Some(account) = account_id {
            if self.find_account(account).is_none() {
                return Err(LedgerError::NotFound);
            }
        }
        if statement.transactions.len() == 0 {
            return Err(LedgerError::ValidationFailure);
        }
        let entries = match entries_from_statement(statement, entry_ids, import_id) {
            Ok(entries) => entries,
            Err(error) => {
                return Err(error);
            },
        };
        if self.find_import(import_id).is_some() {
            return Err(LedgerError::ConstraintViolation);
        }
        let mut ledger = Ledger::new(import_id);
        let changes = match ledger.bulk_insert(entries) {
            Ok(changes) => changes,
            Err(error) => {
                return Err(error);
            },
        };
        assert(ledger@ =~= staged_rows(statement.transactions@, entry_ids@, import_id));
        proof {
            let lines = statement.transactions@;
            let entries = staged_entries(lines, entry_ids@, import_id);
            let none = Seq::<Entry>::empty();
            let rows = staged_rows(lines, entry_ids@, import_id);
            crate::laws::law_batch_keeps_prefix_sums(none, import_id, entries);
            assert(none + rows =~= rows);
            assert forall|j: int| 0 <= j < rows.len() implies (#[trigger] rows[j]).sequence_number
                == j + 1 && rows[j].amount == signed_amount(lines[j]) by {
                assert(amounts_valid(lines[j]));
                assert(rows[j].amount == entries[j].amount);
            }
        }
        match self.staged.add_ledger(ledger) {
            Ok(_) => {},
            Err(error) => {
                return Err(error);
            },
        }
        self.imports.push(
            Import { id: import_id, account_id, import_date: now, source_file_date: statement.date },
        );
        proof {
            assert(self.staged().drop_last() =~= before.staged());
            assert forall|i: int| 0 <= i < self.imports().len() implies (
            #[trigger] self.imports()[i]).id == self.staged()[i].scope() by {
                if i < before.imports().len() {
                    assert(self.imports()[i] == before.imports()[i]);
                    assert(self.staged()[i] == before.staged()[i]);
                }
            }
        }
        Ok(changes)
    }

    /// Deletes the import with the identifier, and its staged entries
    /// with it. Refused with `NotFound`, and without any change, where
    /// there is no such import.
    pub fn discard_import(&mut self, id: u128) -> (result: Result<(), LedgerError>)
        requires
            old(self).wf(),
        ensures
            final(self).wf(),
            final(self).same_accounts(old(self)),
            !old(self).has_import(id) ==> result == Err::<(), LedgerError>(LedgerError::NotFound)
                && final(self).same_imports(old(self)),
            old(self).has_import(id) ==> result is Ok && !final(self).has_import(id) && final(self).imports() == old(self).imports().remove(old(self).import_index(id)) && final(self).staged() == old(self).staged().remove(old(self).import_index(id)),
    {
        let at: usize = match self.find_import(id) {
            Some(at) => at,
            None => {
                return Err(LedgerError::NotFound);
            },
        };
        self.remove_import_at(at);
        Ok(())
    }

    /// Takes the import at a place out, with its staged ledger.
    fn remove_import_at(&mut self, at: usize)
        requires
            old(self).wf(),
            at < old(self).imports().len(),
        ensures
            final(self).wf(),
            final(self).same_accounts(old(self)),
            final(self).imports() == old(self).imports().remove(at as int),
            final(self).staged() == old(self).staged().remove(at as int),
            !final(self).has_import(old(self).imports()[at as int].id),
    {
        let ghost before = *self;
        let _ = self.imports.remove(at);
        let _ = self.staged.remove_at(at);
        proof {
            assert forall|i: int| 0 <= i < self.imports().len() implies (
            #[trigger] self.imports()[i]).id == self.staged()[i].scope() by {
                let a = if i < at { i } else { i + 1 };
                assert(self.imports()[i] == before.imports()[a]);
                assert(self.staged()[i] == before.staged()[a]);
                assert(before.imports()[a].id == before.staged()[a].scope());
            }
            let gone = before.imports()[at as int].id;
            assert(before.imports()[at as int].id == before.staged()[at as int].scope());
            if has_scope(self.staged(), gone) {
                let i = choose|i: int|
                    0 <= i < self.staged().len() && (#[trigger] self.staged()[i]).scope() == gone;
                let a = if i < at { i } else { i + 1 };
                assert(self.staged()[i] == before.staged()[a]);
                if a < at {
                    assert(before.staged()[a].scope() != before.staged()[at as int].scope());
                } else {
                    assert(before.staged()[at as int].scope() != before.staged()[a].scope());
                }
            }
        }
    }

    /// Binds the import with the identifier to another account, where one
    /// is given. Refused with `NotFound`, and without any change, where
    /// there is no such import or no such account.
    pub fn rebind_import(&mut self, id: u128, account_id: Option<u128>) -> (result: Result<
        Import,
        LedgerError,
    >)
        requires
            old(self).wf(),
        ensures
            final(self).wf(),
            final(self).same_accounts(old(self)),
            final(self).staged() == old(self).staged(),
            !old(self).has_import(id) || (account_id is Some && !old(self).has_account(
                account_id.unwrap(),
            )) ==> result == Err::<Import, LedgerError>(LedgerError::NotFound) && final(self).same_imports(old(self)),
            old(self).has_import(id) && (account_id is None || old(self).has_account(
                account_id.unwrap(),
            )) ==> {
                let at = old(self).import_index(id);
                let import = Import {
                    account_id: if account_id is Some {
                        account_id
                    } else {
                        old(self).imports()[at].account_id
                    },
                    ..old(self).imports()[at]
                };
                &&& result == Ok::<Import, LedgerError>(import)
                &&& final(self).imports() == old(self).imports().update(at, import)
            },
    {
        let ghost before = *self;
        let at: usize = match self.find_import(id) {
            Some(at) => at,
            None => {
                return Err(LedgerError::NotFound);
            },
        };
        if let Some(account) = account_id {
            if self.find_account(account).is_none() {
                return Err(LedgerError::NotFound);
            }
            self.imports[at].account_id = Some(account);
        }
        proof {
            assert forall|i: int| 0 <= i < self.imports().len() implies (
            #[trigger] self.imports()[i]).id == self.staged()[i].scope() by {
                assert(before.imports()[i].id == before.staged()[i].scope());
            }
            assert(self.imports() =~= before.imports().update(at as int, self.imports()[at as int]));
        }
        Ok(self.imports[at])
    }

    /// Promotes the import with the identifier to the account given: each
    /// staged entry becomes a posted entry of the account under the
    /// identifier that `ids` gives for it, numbered at the account's
    /// high-water mark plus its staged number, with date, amount, balance,
    /// reference and description as they were; the account's high-water
    /// mark follows; the import and its staged entries are deleted. The
    /// result lists one insert per posted entry.
    ///
    /// Refused with `NotFound` where there is no such import or no such
    /// account, with `ValidationFailure` where `ids` does not hold one
    /// identifier per staged entry or a number cannot be stored, and with
    /// `ConstraintViolation` where an identifier is taken. A refused
    /// promotion changes nothing.
    pub fn promote_import(&mut self, import_id: u128, account_id: u128, ids: &Vec<u128>) -> (result:
        Result<Vec<RowChange>, LedgerError>)
        requires
            old(self).wf(),
        ensures
            final(self).wf(),
            match approval_refusal(*old(self), import_id, account_id, ids@) {
                Some(error) => result == Err::<Vec<RowChange>, LedgerError>(error) && final(self).same_as(old(self)),
                None => {
                    let a = old(self).account_index(account_id);
                    let i = old(self).import_index(import_id);
                    let rows = old(self).posted()[a]@;
                    let more = promoted(
                        old(self).staged()[i]@,
                        account_id,
                        high_water_mark(rows),
                        ids@,
                    );
                    &&& result is Ok
                    &&& result.unwrap()@ == inserts_of(more)
                    &&& only_changed(old(self).posted(), final(self).posted(), a)
                    &&& final(self).posted()[a]@ == rows + more
                    &&& final(self).accounts() == old(self).accounts().update(
                        a,
                        with_mark(
                            old(self).accounts()[a],
                            (high_water_mark(rows) + high_water_mark(old(self).staged()[i]@)) as i64,
                        ),
                    )
                    &&& !final(self).has_import(import_id)
                    &&& final(self).imports() == old(self).imports().remove(i)
                    &&& final(self).staged() == old(self).staged().remove(i)
                },
            },
    {
        let ghost before = *self;
        let i: usize = match self.find_import(import_id) {
            Some(at) => at,
            None => {
                return Err(LedgerError::NotFound);
            },
        };
        let a: usize = match self.find_account(account_id) {
            Some(at) => at,
            None => {
                return Err(LedgerError::NotFound);
            },
        };
        let changes = match self.posted.promote_into(a, self.staged.at(i), ids) {
            Ok(changes) => changes,
            Err(error) => {
                return Err(error);
            },
        };
        self.refresh_mark(a);
        proof {
            let rows = before.posted()[a as int]@;
            let staged = before.staged()[i as int];
            crate::laws::law_promotion_writes_replay(
                rows,
                account_id,
                staged@,
                staged.scope(),
                ids@,
            );
            crate::ledger::lemma_high_water_mark(
                self.posted()[a as int]@,
                self.posted()[a as int].scope(),
            );
            Self::lemma_posted_changed(before, *self, a as int);
        }
        self.remove_import_at(i);
        Ok(changes)
    }

    /// Deletes the account with the identifier, its posted entries with
    /// it, and every import that is bound to it with that import's staged
    /// entries. Refused with `NotFound`, and without any change, where
    /// there is no such account.
    pub fn remove_account(&mut self, id: u128) -> (result: Result<(), LedgerError>)
        requires
            old(self).wf(),
        ensures
            final(self).wf(),
            !old(self).has_account(id) ==> result == Err::<(), LedgerError>(LedgerError::NotFound)
                && final(self).same_as(old(self)),
            old(self).has_account(id) ==> result is Ok && !final(self).has_account(id) && final(self).accounts() == old(self).accounts().remove(old(self).account_index(id)) && final(self).posted() == old(self).posted().remove(old(self).account_index(id)) && final(self).imports() == imports_without(old(self).imports(), id) && final(self).staged()
                == staged_without(old(self).imports(), old(self).staged(), id),
    {
        let ghost before = *self;
        let at: usize = match self.find_account(id) {
            Some(at) => at,
            None => {
                return Err(LedgerError::NotFound);
            },
        };
        let _ = self.accounts.remove(at);
        let _ = self.posted.remove_at(at);
        proof {
            assert forall|i: int| 0 <= i < self.accounts().len() implies (
            #[trigger] self.accounts()[i]).id == self.posted()[i].scope()
                && self.accounts()[i].max_sequence_number == high_water_mark(
                self.posted()[i]@,
            ) by {
                let a = if i < at { i } else { i + 1 };
                assert(self.accounts()[i] == before.accounts()[a]);
                assert(self.posted()[i] == before.posted()[a]);
                assert(before.accounts()[a].id == before.posted()[a].scope());
            }
            if has_scope(self.posted(), id) {
                let i = choose|i: int|
                    0 <= i < self.posted().len() && (#[trigger] self.posted()[i]).scope() == id;
                let a = if i < at { i } else { i + 1 };
                assert(self.posted()[i] == before.posted()[a]);
                if a < at {
                    assert(before.posted()[a].scope() != before.posted()[at as int].scope());
                } else {
                    assert(before.posted()[at as int].scope() != before.posted()[a].scope());
                }
            }
        }
        let ghost mid = *self;
        let mut i: usize = self.imports.len();
        proof {
            assert(before.imports().skip(i as int) =~= Seq::<Import>::empty());
            assert(before.imports().take(i as int) =~= before.imports());
            assert(before.staged().take(i as int) =~= before.staged());
        }
        while i > 0
            invariant
                self.wf(),
                before.wf(),
                self.same_accounts(&mid),
                mid.imports() == before.imports(),
                mid.staged() == before.staged(),
                i <= before.imports().len(),
                self.imports() == before.imports().take(i as int) + imports_without(
                    before.imports().skip(i as int),
                    id,
                ),
                self.staged() == before.staged().take(i as int) + staged_without(
                    before.imports().skip(i as int),
                    before.staged().skip(i as int),
                    id,
                ),
            decreases i,
        {
            i = i - 1;
            let ghost tail = before.imports().skip(i as int);
            let ghost tail_staged = before.staged().skip(i as int);
            proof {
                assert(tail[0] == before.imports()[i as int]);
                assert(tail_staged[0] == before.staged()[i as int]);
                assert(tail.drop_first() =~= before.imports().skip(i + 1));
                assert(tail_staged.drop_first() =~= before.staged().skip(i + 1));
                assert(self.imports()[i as int] == before.imports()[i as int]);
            }
            let bound: bool = match self.imports[i].account_id {
                Some(account) => account == id,
                None => false,
            };
            if bound {
                self.remove_import_at(i);
                proof {
                    assert(self.imports() =~= before.imports().take(i as int) + imports_without(
                        tail,
                        id,
                    ));
                    assert(self.staged() =~= before.staged().take(i as int) + staged_without(
                        tail,
                        tail_staged,
                        id,
                    ));
                }
            } else {
                proof {
                    assert(self.imports() =~= before.imports().take(i as int) + imports_without(
                        tail,
                        id,
                    ));
                    assert(self.staged() =~= before.staged().take(i as int) + staged_without(
                        tail,
                        tail_staged,
                        id,
                    ));
                }
            }
        }
        proof {
            assert(before.imports().skip(0) =~= before.imports());
            assert(before.staged().skip(0) =~= before.staged());
            assert(before.imports().take(0) + imports_without(before.imports(), id)
                =~= imports_without(before.imports(), id));
            assert(before.staged().take(0) + staged_without(
                before.imports(),
                before.staged(),
                id,
            ) =~= staged_without(before.imports(), before.staged(), id));
        }
        Ok(())
    }
}

} // verus!
