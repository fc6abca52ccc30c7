//! An entry table: the ledgers of all scopes of one kind, staged or
//! posted.

use vstd::prelude::*;
use crate::changes::{inserts_of, RowChange};
use crate::entry::Entry;
use crate::error::LedgerError;
use crate::helpers::{entry_sort_pair, EntryQueryOptions};
use crate::ledger::{
    batch_refusal, batch_rows, promoted, promotion_refusal, update_changes, update_refusal, updated,
    EntryPatch, Ledger,
};
use crate::queries::{select, selected};
use crate::sequence::{
    delete_changes, delete_refusal, deleted, find_by_id, has_id, high_water_mark, index_of,
    insert_changes, insert_refusal, inserted,
};

verus! {

/// All ledgers are well formed, and no two are of one scope.
pub open spec fn ledgers_wf(ledgers: Seq<Ledger>) -> bool {
    &&& forall|i: int| 0 <= i < ledgers.len() ==> (#[trigger] ledgers[i]).wf()
    &&& forall|i: int, j: int|
        0 <= i < j < ledgers.len() ==> (#[trigger] ledgers[i]).scope() != (
        #[trigger] ledgers[j]).scope()
}

/// Some ledger is of the scope.
pub open spec fn has_scope(ledgers: Seq<Ledger>, scope: u128) -> bool {
    exists|i: int| 0 <= i < ledgers.len() && (#[trigger] ledgers[i]).scope() == scope
}

/// The place of the ledger of the scope.
pub open spec fn scope_index(ledgers: Seq<Ledger>, scope: u128) -> int {
    choose|i: int| 0 <= i < ledgers.len() && (#[trigger] ledgers[i]).scope() == scope
}

/// The place of the first ledger, from place `from` on, that holds an
/// entry with the identifier; the number of ledgers where none does.
pub open spec fn holder_from(ledgers: Seq<Ledger>, id: u128, from: int) -> int
    decreases ledgers.len() - from,
{
    if from < 0 || from >= ledgers.len() {
        ledgers.len() as int
    } else if has_id(ledgers[from]@, id) {
        from
    } else {
        holder_from(ledgers, id, from + 1)
    }
}

/// The place of the first ledger that holds an entry with the identifier;
/// the number of ledgers where none does.
pub open spec fn holder(ledgers: Seq<Ledger>, id: u128) -> int {
    holder_from(ledgers, id, 0)
}

/// The ledgers with the one at place `at` changed, the others as they
/// were.
pub open spec fn only_changed(before: Seq<Ledger>, after: Seq<Ledger>, at: int) -> bool {
    &&& after.len() == before.len()
    &&& after[at].scope() == before[at].scope()
    &&& forall|k: int| 0 <= k < before.len() && k != at ==> #[trigger] after[k] == before[k]
}

/// With distinct scopes, the place at which a scope is found is its place.
pub proof fn lemma_scope_index(ledgers: Seq<Ledger>, scope: u128, at: int)
    requires
        ledgers_wf(ledgers),
        0 <= at < ledgers.len(),
        ledgers[at].scope() == scope,
    ensures
        has_scope(ledgers, scope),
        scope_index(ledgers, scope) == at,
{
    let found = scope_index(ledgers, scope);
    assert(0 <= found < ledgers.len() && ledgers[found].scope() == scope);
    if found < at {
        assert(ledgers[found].scope() != ledgers[at].scope());
    } else if at < found {
        assert(ledgers[at].scope() != ledgers[found].scope());
    }
}

/// The first holder is the place before which no ledger holds the entry
/// and at which one does, or the number of ledgers.
pub proof fn lemma_holder(ledgers: Seq<Ledger>, id: u128, from: int, at: int)
    requires
        0 <= from <= at <= ledgers.len(),
        forall|k: int| from <= k < at ==> !has_id((#[trigger] ledgers[k])@, id),
        at < ledgers.len() ==> has_id(ledgers[at]@, id),
    ensures
        holder_from(ledgers, id, from) == at,
    decreases at - from,
{
    if from < at {
        assert(!has_id(ledgers[from]@, id));
        lemma_holder(ledgers, id, from + 1, at);
    }
}

/// What the first holder is: no ledger before it holds the entry, and it
/// does, if it is a ledger.
pub proof fn lemma_holder_parts(ledgers: Seq<Ledger>, id: u128, from: int)
    requires
        0 <= from <= ledgers.len(),
    ensures
        from <= holder_from(ledgers, id, from) <= ledgers.len(),
        forall|k: int|
            from <= k < holder_from(ledgers, id, from) ==> !has_id((#[trigger] ledgers[k])@, id),
        holder_from(ledgers, id, from) < ledgers.len() ==> has_id(
            ledgers[holder_from(ledgers, id, from)]@,
            id,
        ),
    decreases ledgers.len() - from,
{
    if from < ledgers.len() && !has_id(ledgers[from]@, id) {
        lemma_holder_parts(ledgers, id, from + 1);
    }
}

/// Where only the first holder of an entry changed, and still holds it,
/// it is still the first holder.
pub proof fn lemma_holder_stays(before: Seq<Ledger>, after: Seq<Ledger>, id: u128)
    requires
        holder(before, id) < before.len(),
        only_changed(before, after, holder(before, id)),
        has_id(after[holder(before, id)]@, id),
    ensures
        holder(after, id) == holder(before, id),
{
    let at = holder(before, id);
    lemma_holder_parts(before, id, 0);
    assert forall|k: int| 0 <= k < at implies !has_id((#[trigger] after[k])@, id) by {
        assert(after[k] == before[k]);
    }
    lemma_holder(after, id, 0, at);
}

/// Changing one ledger and keeping its scope keeps the table well formed.
pub proof fn lemma_only_changed_wf(before: Seq<Ledger>, after: Seq<Ledger>, at: int)
    requires
        ledgers_wf(before),
        0 <= at < before.len(),
        only_changed(before, after, at),
        after[at].wf(),
    ensures
        ledgers_wf(after),
{
    assert forall|i: int| 0 <= i < after.len() implies (#[trigger] after[i]).wf() by {
        if i != at {
            assert(after[i] == before[i]);
        }
    }
    assert forall|i: int, j: int| 0 <= i < j < after.len() implies (#[trigger] after[i]).scope()
        != (#[trigger] after[j]).scope() by {
        assert(before[i].scope() != before[j].scope());
        if i != at {
            assert(after[i] == before[i]);
        }
        if j != at {
            assert(after[j] == before[j]);
        }
    }
}

/// The entries of all ledgers, ledger after ledger.
pub open spec fn all_rows(ledgers: Seq<Ledger>) -> Seq<Entry>
    decreases ledgers.len(),
{
    if ledgers.len() == 0 {
        Seq::<Entry>::empty()
    } else {
        all_rows(ledgers.drop_last()) + ledgers.last()@
    }
}

/// The first of the rows, if there is one.
pub open spec fn first_row(rows: Seq<Entry>) -> Option<Entry> {
    if rows.len() > 0 {
        Some(rows[0])
    } else {
        None
    }
}

/// The entries that a query yields from the ledgers.
pub open spec fn entries_selected(ledgers: Seq<Ledger>, options: EntryQueryOptions) -> Seq<Entry> {
    selected(
        all_rows(ledgers),
        options.filter,
        entry_sort_pair(options.sort),
        options.offset,
        options.limit,
    )
}

/// The entry that a query for one entry yields: where the filter names an
/// identifier, the entry with it from the first ledger that holds one,
/// whatever else the query asks for; else the first entry that the query
/// yields.
pub open spec fn entry_selected(ledgers: Seq<Ledger>, options: EntryQueryOptions) -> Option<Entry> {
    if options.filter is Some && options.filter.unwrap().id is Some {
        let id = options.filter.unwrap().id.unwrap();
        let at = holder(ledgers, id);
        if at < ledgers.len() {
            Some(ledgers[at]@[index_of(ledgers[at]@, id)])
        } else {
            None
        }
    } else {
        first_row(
            selected(
                all_rows(ledgers),
                options.filter,
                entry_sort_pair(options.sort),
                options.offset,
                Some(1u64),
            ),
        )
    }
}

/// One of the two entry tables, staged or posted: the ledgers of all its
/// scopes.
#[derive(Debug)]
pub struct EntryTable {
    ledgers: Vec<Ledger>,
}

impl View for EntryTable {
    type V = Seq<Ledger>;

    closed spec fn view(&self) -> Seq<Ledger> {
        self.ledgers@
    }
}

impl EntryTable {
    /// What every table satisfies.
    pub open spec fn wf(&self) -> bool {
        ledgers_wf(self@)
    }

    /// A table without scopes.
    pub fn new() -> (table: EntryTable)
        ensures
            table.wf(),
            table@ == Seq::<Ledger>::empty(),
    {
        EntryTable { ledgers: Vec::new() }
    }

    /// The number of scopes.
    pub fn len(&self) -> (n: usize)
        ensures
            n == self@.len(),
    {
        self.ledgers.len()
    }

    /// The ledger at a place.
    pub fn at(&self, i: usize) -> (ledger: &Ledger)
        requires
            i < self@.len(),
        ensures
            *ledger == self@[i as int],
    {
        &self.ledgers[i]
    }

    /// The place of the ledger of the scope, if the table has one.
    pub fn find_scope(&self, scope: u128) -> (found: Option<usize>)
        requires
            self.wf(),
        ensures
            match found {
                Some(at) => has_scope(self@, scope) && at == scope_index(self@, scope) && at
                    < self@.len() && self@[at as int].scope() == scope,
                None => !has_scope(self@, scope),
            },
    {
        let mut i: usize = 0;
        while i < self.ledgers.len()
            invariant
                i <= self.ledgers.len(),
                self.wf(),
                forall|k: int| 0 <= k < i ==> (#[trigger] self@[k]).scope() != scope,
            decreases self.ledgers.len() - i,
        {
            if self.ledgers[i].scope_id() == scope {
                proof {
                    lemma_scope_index(self@, scope, i as int);
                }
                return Some(i);
            }
            i = i + 1;
        }
        None
    }

    /// The place of the first ledger that holds an entry with the
    /// identifier, if one does.
    pub fn find_holder(&self, id: u128) -> (found: Option<usize>)
        ensures
            match found {
                Some(at) => at == holder(self@, id) && at < self@.len() && has_id(
                    self@[at as int]@,
                    id,
                ),
                None => holder(self@, id) == self@.len(),
            },
    {
        let mut i: usize = 0;
        while i < self.ledgers.len()
            invariant
                i <= self.ledgers.len(),
                forall|k: int| 0 <= k < i ==> !has_id((#[trigger] self@[k])@, id),
            decreases self.ledgers.len() - i,
        {
            if find_by_id(self.ledgers[i].entries(), id).is_some() {
                proof {
                    lemma_holder(self@, id, 0, i as int);
                }
                return Some(i);
            }
            i = i + 1;
        }
        proof {
            lemma_holder(self@, id, 0, self@.len() as int);
        }
        None
    }

    /// The ledger of the scope, if the table has one.
    pub fn ledger(&self, scope: u128) -> (found: Option<&Ledger>)
        requires
            self.wf(),
        ensures
            match found {
                Some(ledger) => has_scope(self@, scope) && *ledger == self@[scope_index(
                    self@,
                    scope,
                )],
                None => !has_scope(self@, scope),
            },
    {
        match self.find_scope(scope) {
            Some(at) => Some(&self.ledgers[at]),
            None => None,
        }
    }

    /// The entry with the identifier, from the first ledger that holds
    /// one.
    pub fn entry(&self, id: u128) -> (found: Option<&Entry>)
        requires
            self.wf(),
        ensures
            match found {
                Some(entry) => holder(self@, id) < self@.len() && *entry == self@[holder(
                    self@,
                    id,
                )]@[index_of(self@[holder(self@, id)]@, id)],
                None => holder(self@, id) == self@.len(),
            },
    {
        match self.find_holder(id) {
            Some(at) => self.ledgers[at].get(id),
            None => None,
        }
    }

    /// Opens an empty ledger for a scope. Refused with
    /// `ConstraintViolation` where the table has the scope already.
    pub fn add_scope(&mut self, scope: u128) -> (result: Result<(), LedgerError>)
        requires
            old(self).wf(),
        ensures
            final(self).wf(),
            has_scope(old(self)@, scope) ==> result == Err::<(), LedgerError>(
                LedgerError::ConstraintViolation,
            ) && final(self)@ == old(self)@,
            !has_scope(old(self)@, scope) ==> result is Ok && final(self)@.len() == old(self)@.len()
                + 1 && final(self)@.drop_last() == old(self)@ && final(self)@.last().scope()
                == scope && final(self)@.last()@ == Seq::<Entry>::empty(),
    {
        if self.find_scope(scope).is_some() {
            return Err(LedgerError::ConstraintViolation);
        }
        let ghost before = self@;
        self.ledgers.push(Ledger::new(scope));
        proof {
            let after = self@;
            assert(after.drop_last() =~= before);
            assert forall|i: int, j: int| 0 <= i < j < after.len() implies (
            #[trigger] after[i]).scope() != (#[trigger] after[j]).scope() by {
                assert(after[i] == before[i]);
                if j < before.len() {
                    assert(after[j] == before[j]);
                }
            }
            assert forall|i: int| 0 <= i < after.len() implies (#[trigger] after[i]).wf() by {
                if i < before.len() {
                    assert(after[i] == before[i]);
                }
            }
        }
        Ok(())
    }

    /// Takes the ledger at a place out of the table, with all its entries.
    pub fn remove_at(&mut self, at: usize) -> (ledger: Ledger)
        requires
            old(self).wf(),
            at < old(self)@.len(),
        ensures
            final(self).wf(),
            final(self)@ == old(self)@.remove(at as int),
            ledger == old(self)@[at as int],
    {
        let ghost before = self@;
        let ledger = self.ledgers.remove(at);
        proof {
            let after = self@;
            assert forall|i: int| 0 <= i < after.len() implies (#[trigger] after[i]).wf() by {
                let a = if i < at { i } else { i + 1 };
                assert(after[i] == before[a]);
            }
            assert forall|i: int, j: int| 0 <= i < j < after.len() implies (
            #[trigger] after[i]).scope() != (#[trigger] after[j]).scope() by {
                let a = if i < at { i } else { i + 1 };
                let b = if j < at { j } else { j + 1 };
                assert(after[i] == before[a] && after[j] == before[b]);
                assert(before[a].scope() != before[b].scope());
            }
        }
        ledger
    }

    /// Inserts the entry into the ledger of its scope, as `Ledger::insert`
    /// does. Refused with `NotFound` where the table has no such scope.
    pub fn insert(&mut self, entry: Entry) -> (result: Result<Vec<RowChange>, LedgerError>)
        requires
            old(self).wf(),
        ensures
            final(self).wf(),
            !has_scope(old(self)@, entry.scope_id) ==> result == Err::<
                Vec<RowChange>,
                LedgerError,
            >(LedgerError::NotFound) && final(self)@ == old(self)@,
            has_scope(old(self)@, entry.scope_id) ==> {
                let at = scope_index(old(self)@, entry.scope_id);
                let rows = old(self)@[at]@;
                &&& only_changed(old(self)@, final(self)@, at)
                &&& match insert_refusal(rows, entry.scope_id, entry) {
                    Some(error) => result == Err::<Vec<RowChange>, LedgerError>(error) && final(self)@
                        == old(self)@,
                    None => result is Ok && result.unwrap()@ == insert_changes(rows, entry)
                        && final(self)@[at]@ == inserted(rows, entry),
                }
            },
    {
        let ghost before = self@;
        let at: usize = match self.find_scope(entry.scope_id) {
            Some(at) => at,
            None => {
                return Err(LedgerError::NotFound);
            },
        };
        let result = self.ledgers[at].insert(entry);
        proof {
            lemma_only_changed_wf(before, self@, at as int);
        }
        result
    }

    /// Deletes the entry with the identifier from the first ledger that
    /// holds one, as `Ledger::delete` does. Refused with `NotFound` where
    /// none does.
    pub fn delete(&mut self, id: u128) -> (result: Result<Vec<RowChange>, LedgerError>)
        requires
            old(self).wf(),
        ensures
            final(self).wf(),
            holder(old(self)@, id) == old(self)@.len() ==> result == Err::<
                Vec<RowChange>,
                LedgerError,
            >(LedgerError::NotFound) && final(self)@ == old(self)@,
            holder(old(self)@, id) < old(self)@.len() ==> {
                let at = holder(old(self)@, id);
                let rows = old(self)@[at]@;
                &&& only_changed(old(self)@, final(self)@, at)
                &&& match delete_refusal(rows, id) {
                    Some(error) => result == Err::<Vec<RowChange>, LedgerError>(error) && final(self)@
                        == old(self)@,
                    None => result is Ok && result.unwrap()@ == delete_changes(
                        rows,
                        index_of(rows, id),
                    ) && final(self)@[at]@ == deleted(rows, index_of(rows, id)),
                }
            },
    {
        let ghost before = self@;
        let at: usize = match self.find_holder(id) {
            Some(at) => at,
            None => {
                return Err(LedgerError::NotFound);
            },
        };
        let result = self.ledgers[at].delete(id);
        proof {
            lemma_only_changed_wf(before, self@, at as int);
        }
        result
    }

    /// Edits the entry with the identifier in the first ledger that holds
    /// one, as `Ledger::update` does. Refused with `NotFound` where none
    /// does.
    pub fn update(&mut self, id: u128, patch: EntryPatch) -> (result: Result<
        Vec<RowChange>,
        LedgerError,
    >)
        requires
            old(self).wf(),
        ensures
            final(self).wf(),
            holder(old(self)@, id) == old(self)@.len() ==> result == Err::<
                Vec<RowChange>,
                LedgerError,
            >(LedgerError::NotFound) && final(self)@ == old(self)@,
            holder(old(self)@, id) < old(self)@.len() ==> {
                let at = holder(old(self)@, id);
                let rows = old(self)@[at]@;
                &&& only_changed(old(self)@, final(self)@, at)
                &&& match update_refusal(rows, old(self)@[at].scope(), id, patch) {
                    Some(error) => result == Err::<Vec<RowChange>, LedgerError>(error) && final(self)@
                        == old(self)@,
                    None => result is Ok && result.unwrap()@ == update_changes(
                        rows,
                        index_of(rows, id),
                        patch,
                    ) && final(self)@[at]@ == updated(rows, index_of(rows, id), patch),
                }
            },
    {
        let ghost before = self@;
        let at: usize = match self.find_holder(id) {
            Some(at) => at,
            None => {
                return Err(LedgerError::NotFound);
            },
        };
        let result = self.ledgers[at].update(id, patch);
        proof {
            lemma_only_changed_wf(before, self@, at as int);
        }
        result
    }

    /// Adds a batch to the ledger of a scope, as `Ledger::bulk_insert`
    /// does. Refused with `NotFound` where the table has no such scope.
    pub fn bulk_insert(&mut self, scope: u128, entries: Vec<Entry>) -> (result: Result<
        Vec<RowChange>,
        LedgerError,
    >)
        requires
            old(self).wf(),
        ensures
            final(self).wf(),
            !has_scope(old(self)@, scope) ==> result == Err::<Vec<RowChange>, LedgerError>(
                LedgerError::NotFound,
            ) && final(self)@ == old(self)@,
            has_scope(old(self)@, scope) ==> {
                let at = scope_index(old(self)@, scope);
                let rows = old(self)@[at]@;
                &&& only_changed(old(self)@, final(self)@, at)
                &&& match batch_refusal(rows, scope, entries@) {
                    Some(error) => result == Err::<Vec<RowChange>, LedgerError>(error) && final(self)@
                        == old(self)@,
                    None => result is Ok && result.unwrap()@ == inserts_of(
                        batch_rows(rows, entries@),
                    ) && final(self)@[at]@ == rows + batch_rows(rows, entries@),
                }
            },
    {
        let ghost before = self@;
        let at: usize = match self.find_scope(scope) {
            Some(at) => at,
            None => {
                return Err(LedgerError::NotFound);
            },
        };
        let result = self.ledgers[at].bulk_insert(entries);
        proof {
            lemma_only_changed_wf(before, self@, at as int);
        }
        result
    }

    /// Takes a ledger into the table. Refused with `ConstraintViolation`
    /// where the table has a ledger of its scope already.
    pub fn add_ledger(&mut self, ledger: Ledger) -> (result: Result<(), LedgerError>)
        requires
            old(self).wf(),
            ledger.wf(),
        ensures
            final(self).wf(),
            has_scope(old(self)@, ledger.scope()) ==> result == Err::<(), LedgerError>(
                LedgerError::ConstraintViolation,
            ) && final(self)@ == old(self)@,
            !has_scope(old(self)@, ledger.scope()) ==> result is Ok && final(self)@ == old(self)@.push(ledger),
    {
        if self.find_scope(ledger.scope_id()).is_some() {
            return Err(LedgerError::ConstraintViolation);
        }
        let ghost before = self@;
        self.ledgers.push(ledger);
        proof {
            let after = self@;
            assert forall|i: int, j: int| 0 <= i < j < after.len() implies (
            #[trigger] after[i]).scope() != (#[trigger] after[j]).scope() by {
                assert(after[i] == before[i]);
                if j < before.len() {
                    assert(after[j] == before[j]);
                }
            }
            assert forall|i: int| 0 <= i < after.len() implies (#[trigger] after[i]).wf() by {
                if i < before.len() {
                    assert(after[i] == before[i]);
                }
            }
        }
        Ok(())
    }

    /// Posts the entries of a staged ledger to the ledger at a place, as
    /// `Ledger::promote_from` does.
    pub fn promote_into(&mut self, at: usize, staged: &Ledger, ids: &Vec<u128>) -> (result: Result<
        Vec<RowChange>,
        LedgerError,
    >)
        requires
            old(self).wf(),
            staged.wf(),
            at < old(self)@.len(),
        ensures
            final(self).wf(),
            match promotion_refusal(
                old(self)@[at as int]@,
                old(self)@[at as int].scope(),
                staged@,
                ids@,
            ) {
                Some(error) => result == Err::<Vec<RowChange>, LedgerError>(error) && final(self)@
                    == old(self)@,
                None => {
                    let rows = old(self)@[at as int]@;
                    let more = promoted(
                        staged@,
                        old(self)@[at as int].scope(),
                        high_water_mark(rows),
                        ids@,
                    );
                    &&& result is Ok
                    &&& result.unwrap()@ == inserts_of(more)
                    &&& only_changed(old(self)@, final(self)@, at as int)
                    &&& final(self)@[at as int]@ == rows + more
                },
            },
    {
        let ghost before = self@;
        let result = self.ledgers[at].promote_from(staged, ids);
        proof {
            lemma_only_changed_wf(before, self@, at as int);
        }
        result
    }

    /// Copies of all entries of the table, ledger after ledger, each
    /// ledger in ascending order of its numbers.
    pub fn all_entries(&self) -> (rows: Vec<Entry>)
        ensures
            rows@ == all_rows(self@),
    {
        let mut rows: Vec<Entry> = Vec::new();
        let mut i: usize = 0;
        while i < self.ledgers.len()
            invariant
                i <= self.ledgers.len(),
                rows@ == all_rows(self@.take(i as int)),
            decreases self.ledgers.len() - i,
        {
            let entries = self.ledgers[i].entries();
            let ghost start = rows@;
            let mut k: usize = 0;
            while k < entries.len()
                invariant
                    k <= entries.len(),
                    rows@ == start + entries@.take(k as int),
                decreases entries.len() - k,
            {
                rows.push(entries[k].duplicate());
                assert(rows@ =~= start + entries@.take(k + 1));
                k = k + 1;
            }
            proof {
                assert(entries@.take(entries.len() as int) =~= entries@);
                let part = self@.take(i + 1);
                assert(part.drop_last() =~= self@.take(i as int));
                assert(part.last() == self@[i as int]);
            }
            i = i + 1;
        }
        assert(self@.take(self.ledgers.len() as int) =~= self@);
        rows
    }

    /// The entries that pass the filter of the query, sorted as it asks,
    /// behind its offset and up to its limit.
    pub fn select(&self, options: EntryQueryOptions) -> (rows: Vec<Entry>)
        ensures
            rows@ == entries_selected(self@, options),
    {
        let all = self.all_entries();
        let sort = match options.sort {
            Some(sort) => Some((sort.column, sort.direction)),
            None => None,
        };
        select(&all, &options.filter, sort, options.offset, options.limit)
    }

    /// One entry: the one with the identifier where the filter names one,
    /// else the first that the query yields.
    pub fn select_one(&self, options: EntryQueryOptions) -> (found: Option<Entry>)
        requires
            self.wf(),
        ensures
            found == entry_selected(self@, options),
    {
        if let Some(filter) = &options.filter {
            if let Some(id) = filter.id {
                return match self.entry(id) {
                    Some(entry) => Some(entry.duplicate()),
                    None => None,
                };
            }
        }
        let all = self.all_entries();
        let sort = match options.sort {
            Some(sort) => Some((sort.column, sort.direction)),
            None => None,
        };
        let mut rows = select(&all, &options.filter, sort, options.offset, Some(1u64));
        if rows.len() > 0 {
            Some(rows.remove(0))
        } else {
            None
        }
    }
}

} // verus!
