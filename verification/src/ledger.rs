//! The ledger of one scope, with single inserts, edits, deletes, batches
//! and the promotion of a staged ledger into a posted one.

use vstd::prelude::*;
use crate::balance::{
    balance_before, balances_consistent, balances_fit, prefix_sums_hold, recalculate_balance,
    recalculated, running_balance,
};
use crate::changes::{inserts_of, RowChange};
use crate::entry::Entry;
use crate::error::LedgerError;
use crate::sequence::{
    ascending, delete_changes, delete_entry, delete_fits, delete_refusal, deleted, distinct_ids,
    find_by_id, has_id, high_water_mark, index_of, insert_changes, insert_entry, insert_refusal,
    inserted, lemma_index_of, rebalance_entries, rebalance_fits, rebalanced_from, rows_wf,
    split_index,
};
use crate::changes::updates_ascending;

verus! {

/// The entries of one scope: of one import (a staged ledger) or of one
/// account (a posted ledger), in ascending order of their sequence
/// numbers.
#[derive(Debug)]
pub struct Ledger {
    scope_id: u128,
    entries: Vec<Entry>,
}

impl View for Ledger {
    type V = Seq<Entry>;

    closed spec fn view(&self) -> Seq<Entry> {
        self.entries@
    }
}

/// The new values of an edit. A field that is `None` stays as it is.
#[derive(Debug)]
pub struct EntryPatch {
    pub sequence_number: Option<i64>,
    pub date: Option<i64>,
    pub amount: Option<i64>,
    pub ref_no: Option<String>,
    pub description: Option<String>,
}

/// The entry with the new values of `patch` in it. The balance is left as
/// it is: the ledger sets it when the entry is put back.
pub open spec fn patched(entry: Entry, patch: EntryPatch) -> Entry {
    Entry {
        id: entry.id,
        scope_id: entry.scope_id,
        sequence_number: match patch.sequence_number {
            Some(number) => number,
            None => entry.sequence_number,
        },
        date: match patch.date {
            Some(date) => date,
            None => entry.date,
        },
        amount: match patch.amount {
            Some(amount) => amount,
            None => entry.amount,
        },
        balance: entry.balance,
        ref_no: match patch.ref_no {
            Some(text) => text,
            None => entry.ref_no,
        },
        description: match patch.description {
            Some(text) => text,
            None => entry.description,
        },
    }
}

/// The lower of two numbers.
pub open spec fn lower(a: int, b: int) -> int {
    if a < b {
        a
    } else {
        b
    }
}

/// The rows after the row at place `at` was taken out and put back with
/// the new values of `patch`.
pub open spec fn moved(rows: Seq<Entry>, at: int, patch: EntryPatch) -> Seq<Entry> {
    inserted(deleted(rows, at), patched(rows[at], patch))
}

/// The rows after the row at place `at` was edited: taken out and put back
/// and, where its number changed, with the balances recalculated from the
/// lower of the old and the new number.
pub open spec fn updated(rows: Seq<Entry>, at: int, patch: EntryPatch) -> Seq<Entry> {
    let entry = patched(rows[at], patch);
    if entry.sequence_number != rows[at].sequence_number {
        rebalanced_from(
            moved(rows, at, patch),
            lower(rows[at].sequence_number as int, entry.sequence_number as int),
        )
    } else {
        moved(rows, at, patch)
    }
}

/// The writes of an edit: those of the delete, those of the insert and,
/// where the number changed, one balance update per row from the lower of
/// the old and the new number on.
pub open spec fn update_changes(rows: Seq<Entry>, at: int, patch: EntryPatch) -> Seq<RowChange> {
    let entry = patched(rows[at], patch);
    let lowest = lower(rows[at].sequence_number as int, entry.sequence_number as int);
    delete_changes(rows, at) + insert_changes(deleted(rows, at), entry) + (
    if entry.sequence_number != rows[at].sequence_number {
        updates_ascending(updated(rows, at, patch).skip(split_index(moved(rows, at, patch), lowest)))
    } else {
        Seq::<RowChange>::empty()
    })
}

/// Why the edit of the row with `id` is refused, if it is.
pub open spec fn update_refusal(rows: Seq<Entry>, scope: u128, id: u128, patch: EntryPatch) -> Option<
    LedgerError,
> {
    let at = index_of(rows, id);
    let entry = patched(rows[at], patch);
    if !has_id(rows, id) {
        Some(LedgerError::NotFound)
    } else if !delete_fits(rows, at) {
        Some(LedgerError::ValidationFailure)
    } else if insert_refusal(deleted(rows, at), scope, entry) is Some {
        insert_refusal(deleted(rows, at), scope, entry)
    } else if entry.sequence_number != rows[at].sequence_number && !rebalance_fits(
        moved(rows, at, patch),
        lower(rows[at].sequence_number as int, entry.sequence_number as int),
    ) {
        Some(LedgerError::ValidationFailure)
    } else {
        None
    }
}

/// Every entry is of the scope.
pub open spec fn all_of_scope(entries: Seq<Entry>, scope: u128) -> bool {
    forall|j: int| 0 <= j < entries.len() ==> (#[trigger] entries[j]).scope_id == scope
}

/// The entries of a batch as the ledger stores them: numbered in steps of
/// one from the number after the highest in use, with the running balance
/// that goes on from the balance of the highest-numbered row (zero for an
/// empty ledger).
pub open spec fn batch_rows(rows: Seq<Entry>, entries: Seq<Entry>) -> Seq<Entry> {
    Seq::new(
        entries.len(),
        |j: int|
            Entry {
                sequence_number: (high_water_mark(rows) + 1 + j) as i64,
                balance: running_balance(
                    entries,
                    balance_before(rows, 0, rows.len() as int),
                    j + 1,
                ) as i64,
                ..entries[j]
            },
    )
}

/// The numbers and balances of a batch can all be stored.
pub open spec fn batch_fits(rows: Seq<Entry>, entries: Seq<Entry>) -> bool {
    &&& high_water_mark(rows) + entries.len() <= i64::MAX
    &&& balances_fit(entries, balance_before(rows, 0, rows.len() as int))
}

/// Why a batch is refused, if it is.
pub open spec fn batch_refusal(rows: Seq<Entry>, scope: u128, entries: Seq<Entry>) -> Option<
    LedgerError,
> {
    if entries.len() == 0 || !all_of_scope(entries, scope) {
        Some(LedgerError::ValidationFailure)
    } else if !distinct_ids(rows + entries) {
        Some(LedgerError::ConstraintViolation)
    } else if !batch_fits(rows, entries) {
        Some(LedgerError::ValidationFailure)
    } else {
        None
    }
}

/// The staged entries as they are posted to an account: each under its new
/// identifier, in the account's scope, at the account's high-water mark
/// plus its staged number, and otherwise as it was, balance included.
pub open spec fn promoted(staged: Seq<Entry>, account: u128, mark: int, ids: Seq<u128>) -> Seq<
    Entry,
> {
    Seq::new(
        staged.len(),
        |j: int|
            Entry {
                id: ids[j],
                scope_id: account,
                sequence_number: (mark + staged[j].sequence_number) as i64,
                ..staged[j]
            },
    )
}

/// Why a promotion is refused, if it is.
pub open spec fn promotion_refusal(
    posted: Seq<Entry>,
    account: u128,
    staged: Seq<Entry>,
    ids: Seq<u128>,
) -> Option<LedgerError> {
    if ids.len() != staged.len() || high_water_mark(posted) + high_water_mark(staged)
        > i64::MAX {
        Some(LedgerError::ValidationFailure)
    } else if !distinct_ids(posted + promoted(staged, account, high_water_mark(posted), ids)) {
        Some(LedgerError::ConstraintViolation)
    } else {
        None
    }
}

/// In well-formed rows no number lies above the high-water mark.
pub proof fn lemma_high_water_mark(rows: Seq<Entry>, scope: u128)
    requires
        rows_wf(rows, scope),
    ensures
        0 <= high_water_mark(rows) <= i64::MAX,
        forall|i: int|
            0 <= i < rows.len() ==> (#[trigger] rows[i]).sequence_number <= high_water_mark(rows),
{
    if rows.len() > 0 {
        let last = rows.len() - 1;
        assert(rows[last].sequence_number >= 1);
        assert forall|i: int| 0 <= i < rows.len() implies (#[trigger] rows[i]).sequence_number
            <= high_water_mark(rows) by {
            if i < last {
                assert(rows[i].sequence_number < rows[last].sequence_number);
            }
        }
    }
}

/// Rows of the scope that are numbered above the high-water mark, in
/// ascending order, can be added at the end of a ledger, so long as no
/// identifier then occurs twice.
pub proof fn lemma_extended_wf(rows: Seq<Entry>, scope: u128, more: Seq<Entry>)
    requires
        rows_wf(rows, scope),
        all_of_scope(more, scope),
        ascending(more),
        more.len() > 0 ==> more[0].sequence_number > high_water_mark(rows),
        distinct_ids(rows + more),
    ensures
        rows_wf(rows + more, scope),
{
    let out = rows + more;
    let n = rows.len() as int;
    lemma_high_water_mark(rows, scope);
    assert forall|i: int| 0 <= i < out.len() implies (#[trigger] out[i]).scope_id == scope
        && out[i].sequence_number >= 1 by {
        if i >= n {
            assert(out[i] == more[i - n]);
            if i > n {
                assert(more[0].sequence_number < more[i - n].sequence_number);
            }
        } else {
            assert(out[i] == rows[i]);
        }
    }
    assert forall|i: int, j: int| 0 <= i < j < out.len() implies (
    #[trigger] out[i]).sequence_number < (#[trigger] out[j]).sequence_number by {
        if j < n {
            assert(rows[i].sequence_number < rows[j].sequence_number);
        } else if i >= n {
            assert(more[i - n].sequence_number < more[j - n].sequence_number);
        } else {
            assert(rows[i].sequence_number <= high_water_mark(rows));
            if j > n {
                assert(more[0].sequence_number < more[j - n].sequence_number);
            }
        }
    }
}

/// Whether no identifier occurs twice among the rows and the entries
/// together.
fn ids_stay_distinct(rows: &Vec<Entry>, entries: &Vec<Entry>) -> (ok: bool)
    requires
        distinct_ids(rows@),
    ensures
        ok == distinct_ids(rows@ + entries@),
{
    let ghost all = rows@ + entries@;
    let mut j: usize = 0;
    while j < entries.len()
        invariant
            j <= entries.len(),
            all == rows@ + entries@,
            distinct_ids(rows@),
            forall|a: int, b: int|
                0 <= a < b < rows.len() + j ==> (#[trigger] all[a]).id != (#[trigger] all[b]).id,
        decreases entries.len() - j,
    {
        let id: u128 = entries[j].id;
        assert(all[rows.len() + j] == entries@[j as int]);
        match find_by_id(rows, id) {
            Some(at) => {
                assert(all[at as int] == rows@[at as int]);
                assert(all[at as int].id == all[rows.len() + j].id);
                return false;
            },
            None => {},
        }
        let mut k: usize = 0;
        while k < j
            invariant
                k <= j,
                j < entries.len(),
                id == entries@[j as int].id,
                forall|a: int| 0 <= a < k ==> (#[trigger] entries@[a]).id != id,
                all == rows@ + entries@,
            decreases j - k,
        {
            if entries[k].id == id {
                assert(all[rows.len() + k] == entries@[k as int]);
                assert(all[rows.len() + j] == entries@[j as int]);
                assert(all[rows.len() + k].id == all[rows.len() + j].id);
                return false;
            }
            k = k + 1;
        }
        assert forall|a: int, b: int| 0 <= a < b < rows.len() + j + 1 implies (
        #[trigger] all[a]).id != (#[trigger] all[b]).id by {
            if b == rows.len() + j {
                if a < rows.len() {
                    assert(all[a] == rows@[a]);
                    assert(rows@[a].id != id);
                } else {
                    assert(all[a] == entries@[a - rows.len()]);
                }
            }
        }
        j = j + 1;
    }
    true
}

/// A copy of the rows, row for row.
pub(crate) fn duplicate_rows(rows: &Vec<Entry>) -> (copy: Vec<Entry>)
    ensures
        copy@ == rows@,
{
    let mut copy: Vec<Entry> = Vec::new();
    let mut i: usize = 0;
    while i < rows.len()
        invariant
            i <= rows.len(),
            copy@ == rows@.take(i as int),
        decreases rows.len() - i,
    {
        copy.push(rows[i].duplicate());
        assert(copy@ =~= rows@.take(i + 1));
        i = i + 1;
    }
    assert(rows@.take(rows.len() as int) =~= rows@);
    copy
}

/// The entry with the new values of `patch` in it.
fn apply_patch(entry: &Entry, patch: EntryPatch) -> (out: Entry)
    ensures
        out == patched(*entry, patch),
{
    Entry {
        id: entry.id,
        scope_id: entry.scope_id,
        sequence_number: match patch.sequence_number {
            Some(number) => number,
            None => entry.sequence_number,
        },
        date: match patch.date {
            Some(date) => date,
            None => entry.date,
        },
        amount: match patch.amount {
            Some(amount) => amount,
            None => entry.amount,
        },
        balance: entry.balance,
        ref_no: match patch.ref_no {
            Some(text) => text,
            None => entry.ref_no.clone(),
        },
        description: match patch.description {
            Some(text) => text,
            None => entry.description.clone(),
        },
    }
}

/// Appends the writes of `more` to `changes`.
fn append_changes(changes: &mut Vec<RowChange>, more: Vec<RowChange>)
    ensures
        final(changes)@ == old(changes)@ + more@,
{
    let mut more = more;
    changes.append(&mut more);
}

impl Ledger {
    /// The scope whose entries the ledger holds.
    pub closed spec fn scope(&self) -> u128 {
        self.scope_id
    }

    /// What every ledger satisfies: its rows are all of its scope, numbered
    /// from one upwards in strictly ascending order, under distinct
    /// identifiers.
    pub open spec fn wf(&self) -> bool {
        rows_wf(self@, self.scope())
    }

    /// An empty ledger for the scope.
    pub fn new(scope_id: u128) -> (ledger: Ledger)
        ensures
            ledger.wf(),
            ledger.scope() == scope_id,
            ledger@ == Seq::<Entry>::empty(),
    {
        Ledger { scope_id, entries: Vec::new() }
    }

    /// A ledger that holds the rows given, which are the rows of the scope
    /// or a part of them: numbered from one upwards in strictly ascending
    /// order, under distinct identifiers. Refused with `ValidationFailure`
    /// for any other rows.
    pub fn from_rows(scope_id: u128, rows: Vec<Entry>) -> (result: Result<Ledger, LedgerError>)
        ensures
            match result {
                Ok(ledger) => rows_wf(rows@, scope_id) && ledger.wf() && ledger.scope() == scope_id
                    && ledger@ == rows@,
                Err(error) => !rows_wf(rows@, scope_id) && error == LedgerError::ValidationFailure,
            },
    {
        let mut i: usize = 0;
        while i < rows.len()
            invariant
                i <= rows.len(),
                forall|k: int|
                    0 <= k < i ==> (#[trigger] rows@[k]).scope_id == scope_id
                        && rows@[k].sequence_number >= 1,
                forall|a: int, b: int|
                    0 <= a < b < i ==> (#[trigger] rows@[a]).sequence_number < (
                    #[trigger] rows@[b]).sequence_number,
            decreases rows.len() - i,
        {
            if rows[i].scope_id != scope_id || rows[i].sequence_number < 1 {
                return Err(LedgerError::ValidationFailure);
            }
            if i > 0 && rows[i - 1].sequence_number >= rows[i].sequence_number {
                assert(!(rows@[i - 1].sequence_number < rows@[i as int].sequence_number));
                return Err(LedgerError::ValidationFailure);
            }
            proof {
                assert forall|a: int, b: int| 0 <= a < b < i + 1 implies (
                #[trigger] rows@[a]).sequence_number < (#[trigger] rows@[b]).sequence_number by {
                    if b == i && a < i - 1 {
                        assert(rows@[a].sequence_number < rows@[i - 1].sequence_number);
                    }
                }
            }
            i = i + 1;
        }
        let none: Vec<Entry> = Vec::new();
        assert(none@ + rows@ =~= rows@);
        if !ids_stay_distinct(&none, &rows) {
            return Err(LedgerError::ValidationFailure);
        }
        Ok(Ledger { scope_id, entries: rows })
    }

    /// The scope whose entries the ledger holds.
    pub fn scope_id(&self) -> (id: u128)
        ensures
            id == self.scope(),
    {
        self.scope_id
    }

    /// The entries, in ascending order of their sequence numbers.
    pub fn entries(&self) -> (rows: &Vec<Entry>)
        ensures
            rows@ == self@,
    {
        &self.entries
    }

    /// The number of entries.
    pub fn len(&self) -> (n: usize)
        ensures
            n == self@.len(),
    {
        self.entries.len()
    }

    /// The highest sequence number in use, or zero for an empty ledger.
    pub fn max_sequence_number(&self) -> (mark: i64)
        ensures
            mark == high_water_mark(self@),
    {
        let n: usize = self.entries.len();
        if n == 0 {
            0
        } else {
            self.entries[n - 1].sequence_number
        }
    }

    /// The balance of the highest-numbered entry, or zero for an empty
    /// ledger.
    pub fn closing_balance(&self) -> (balance: i64)
        ensures
            balance == balance_before(self@, 0, self@.len() as int),
    {
        let n: usize = self.entries.len();
        if n == 0 {
            0
        } else {
            self.entries[n - 1].balance
        }
    }

    /// The entry with `id`, if the ledger holds it.
    pub fn get(&self, id: u128) -> (found: Option<&Entry>)
        requires
            self.wf(),
        ensures
            match found {
                Some(entry) => has_id(self@, id) && *entry == self@[index_of(self@, id)],
                None => !has_id(self@, id),
            },
    {
        match find_by_id(&self.entries, id) {
            Some(at) => {
                proof {
                    lemma_index_of(self@, id, at as int);
                }
                Some(&self.entries[at])
            },
            None => None,
        }
    }

    /// Whether every stored balance is the running sum of the amounts up
    /// to its entry.
    pub fn is_consistent(&self) -> (ok: bool)
        ensures
            ok == prefix_sums_hold(self@),
    {
        balances_consistent(self.entries.as_slice())
    }

    /// Inserts `entry` at its requested sequence number.
    ///
    /// The entry's balance becomes the balance of the entry with the
    /// largest number below its own (zero where there is none) plus its
    /// amount. The balances of all entries from the requested number on are
    /// recalculated. The entries of the unbroken run that starts at the
    /// requested number move up by one; entries behind the first gap keep
    /// their numbers. The result lists the row writes in the order in which
    /// a store is to perform them: the dependents from the highest number
    /// down, then the new entry.
    ///
    /// Refused with `ValidationFailure` for an entry of another scope, a
    /// number below one, or a balance or number that cannot be stored, and
    /// with `ConstraintViolation` for an identifier that the ledger already
    /// holds. A refused insert changes nothing.
    pub fn insert(&mut self, entry: Entry) -> (result: Result<Vec<RowChange>, LedgerError>)
        requires
            old(self).wf(),
        ensures
            final(self).wf(),
            final(self).scope() == old(self).scope(),
            match insert_refusal(old(self)@, old(self).scope(), entry) {
                Some(error) => result == Err::<Vec<RowChange>, LedgerError>(error) && *final(self)
                    == *old(self),
                None => result is Ok && result.unwrap()@ == insert_changes(old(self)@, entry)
                    && final(self)@ == inserted(old(self)@, entry),
            },
    {
        insert_entry(&mut self.entries, self.scope_id, entry)
    }

    /// Deletes the entry with `id`.
    ///
    /// The balances of the entries above it are recalculated from the
    /// balance that stood before it (its balance less its amount), and each
    /// of them moves down by one number. The result lists the row writes in
    /// the order in which a store is to perform them: the delete, then the
    /// dependents from the lowest number up.
    ///
    /// Refused with `NotFound` where the ledger holds no such entry and
    /// with `ValidationFailure` where a balance cannot be stored. A refused
    /// delete changes nothing.
    pub fn delete(&mut self, id: u128) -> (result: Result<Vec<RowChange>, LedgerError>)
        requires
            old(self).wf(),
        ensures
            final(self).wf(),
            final(self).scope() == old(self).scope(),
            match delete_refusal(old(self)@, id) {
                Some(error) => result == Err::<Vec<RowChange>, LedgerError>(error) && *final(self)
                    == *old(self),
                None => result is Ok && result.unwrap()@ == delete_changes(
                    old(self)@,
                    index_of(old(self)@, id),
                ) && final(self)@ == deleted(old(self)@, index_of(old(self)@, id)),
            },
    {
        delete_entry(&mut self.entries, self.scope_id, id)
    }

    /// Recalculates the balances from the first entry numbered
    /// `sequence_number` or above, starting from the balance of the entry
    /// before it. Refused with `ValidationFailure`, and without any change,
    /// where a balance cannot be stored.
    pub fn rebalance_from(&mut self, sequence_number: i64) -> (result: Result<
        Vec<RowChange>,
        LedgerError,
    >)
        requires
            old(self).wf(),
        ensures
            final(self).wf(),
            final(self).scope() == old(self).scope(),
            rebalance_fits(old(self)@, sequence_number as int) ==> result is Ok && final(self)@
                == rebalanced_from(old(self)@, sequence_number as int) && result.unwrap()@
                == updates_ascending(
                final(self)@.skip(split_index(old(self)@, sequence_number as int)),
            ),
            !rebalance_fits(old(self)@, sequence_number as int) ==> result == Err::<
                Vec<RowChange>,
                LedgerError,
            >(LedgerError::ValidationFailure) && *final(self) == *old(self),
    {
        rebalance_entries(&mut self.entries, self.scope_id, sequence_number)
    }

    /// Edits the entry with `id`: takes it out and puts it back with the
    /// new values of `patch`, at its new number where one is given and at
    /// its old one otherwise, so that the rules of delete and insert apply.
    /// Where the number changed, the balances are recalculated once more
    /// from the lower of the old and the new number. The result lists all
    /// row writes in the order in which a store is to perform them.
    ///
    /// Refused with `NotFound` where the ledger holds no such entry and
    /// with `ValidationFailure` for a new number below one or a balance or
    /// number that cannot be stored. A refused edit changes nothing.
    pub fn update(&mut self, id: u128, patch: EntryPatch) -> (result: Result<
        Vec<RowChange>,
        LedgerError,
    >)
        requires
            old(self).wf(),
        ensures
            final(self).wf(),
            final(self).scope() == old(self).scope(),
            match update_refusal(old(self)@, old(self).scope(), id, patch) {
                Some(error) => result == Err::<Vec<RowChange>, LedgerError>(error) && *final(self)
                    == *old(self),
                None => result is Ok && result.unwrap()@ == update_changes(
                    old(self)@,
                    index_of(old(self)@, id),
                    patch,
                ) && final(self)@ == updated(old(self)@, index_of(old(self)@, id), patch),
            },
    {
        let ghost before = self@;
        let at: usize = match find_by_id(&self.entries, id) {
            Some(at) => at,
            None => {
                return Err(LedgerError::NotFound);
            },
        };
        proof {
            lemma_index_of(before, id, at as int);
        }
        let old_number: i64 = self.entries[at].sequence_number;
        let entry = apply_patch(&self.entries[at], patch);
        let new_number: i64 = entry.sequence_number;
        let mut work = duplicate_rows(&self.entries);
        let mut changes: Vec<RowChange> = match delete_entry(&mut work, self.scope_id, id) {
            Ok(changes) => changes,
            Err(error) => {
                return Err(error);
            },
        };
        match insert_entry(&mut work, self.scope_id, entry) {
            Ok(more) => {
                append_changes(&mut changes, more);
            },
            Err(error) => {
                return Err(error);
            },
        }
        if new_number != old_number {
            let lowest: i64 = if old_number < new_number {
                old_number
            } else {
                new_number
            };
            match rebalance_entries(&mut work, self.scope_id, lowest) {
                Ok(more) => {
                    append_changes(&mut changes, more);
                },
                Err(error) => {
                    return Err(error);
                },
            }
        }
        self.entries = work;
        assert(changes@ =~= update_changes(before, at as int, patch));
        Ok(changes)
    }

    /// Adds a batch of entries at the end of the ledger, in the order
    /// given. The sequence numbers that the entries bring are not used:
    /// they are numbered in steps of one from the number after the highest
    /// in use, and each balance is the balance before it plus the entry's
    /// amount, going on from the balance of the highest-numbered entry
    /// (zero for an empty ledger). The result lists one insert per entry,
    /// in order.
    ///
    /// Refused with `ValidationFailure` for an empty batch, an entry of
    /// another scope, or a number or balance that cannot be stored, and
    /// with `ConstraintViolation` where an identifier would occur twice. A
    /// refused batch changes nothing.
    pub fn bulk_insert(&mut self, entries: Vec<Entry>) -> (result: Result<
        Vec<RowChange>,
        LedgerError,
    >)
        requires
            old(self).wf(),
        ensures
            final(self).wf(),
            final(self).scope() == old(self).scope(),
            match batch_refusal(old(self)@, old(self).scope(), entries@) {
                Some(error) => result == Err::<Vec<RowChange>, LedgerError>(error) && *final(self)
                    == *old(self),
                None => result is Ok && result.unwrap()@ == inserts_of(
                    batch_rows(old(self)@, entries@),
                ) && final(self)@ == old(self)@ + batch_rows(old(self)@, entries@),
            },
    {
        let ghost before = self@;
        let ghost given = entries@;
        let mut batch = entries;
        let n: usize = batch.len();
        if n == 0 {
            return Err(LedgerError::ValidationFailure);
        }
        let mut j: usize = 0;
        while j < n
            invariant
                j <= n,
                n == batch.len(),
                batch@ == given,
                given == entries@,
                *self == *old(self),
                old(self).wf(),
                forall|k: int| 0 <= k < j ==> (#[trigger] given[k]).scope_id == self.scope_id,
            decreases n - j,
        {
            if batch[j].scope_id != self.scope_id {
                return Err(LedgerError::ValidationFailure);
            }
            j = j + 1;
        }
        if !ids_stay_distinct(&self.entries, &batch) {
            return Err(LedgerError::ConstraintViolation);
        }
        proof {
            lemma_high_water_mark(before, self.scope_id);
        }
        let mark: i64 = self.max_sequence_number();
        let closing: i64 = self.closing_balance();
        if n as u64 > (i64::MAX - mark) as u64 {
            return Err(LedgerError::ValidationFailure);
        }
        let updates: Vec<(u128, i64)> = match recalculate_balance(batch.as_slice(), closing) {
            Ok(updates) => updates,
            Err(_) => {
                return Err(LedgerError::ValidationFailure);
            },
        };
        let ghost target = batch_rows(before, given);
        let mut changes: Vec<RowChange> = Vec::new();
        let mut j: usize = 0;
        while j < n
            invariant
                j <= n,
                n == batch.len(),
                n == given.len(),
                given == entries@,
                *self == *old(self),
                old(self).wf(),
                before == self@,
                mark == high_water_mark(before),
                0 <= mark,
                mark + n <= i64::MAX,
                closing == balance_before(before, 0, before.len() as int),
                updates@ == recalculated(given, closing as int),
                target == batch_rows(before, given),
                changes@ == inserts_of(target).take(j as int),
                forall|k: int| 0 <= k < j ==> (#[trigger] batch@[k]) == target[k],
                forall|k: int| j <= k < n ==> (#[trigger] batch@[k]) == given[k],
            decreases n - j,
        {
            assert(batch@[j as int] == given[j as int]);
            batch[j].sequence_number = mark + 1 + j as i64;
            batch[j].balance = updates[j].1;
            assert(batch@[j as int] == target[j as int]);
            changes.push(RowChange::Insert(batch[j].duplicate()));
            assert(changes@ =~= inserts_of(target).take(j + 1));
            j = j + 1;
        }
        proof {
            assert(batch@ =~= target);
            assert(inserts_of(target).take(n as int) =~= inserts_of(target));
            assert(all_of_scope(target, self.scope_id)) by {
                assert forall|k: int| 0 <= k < target.len() implies (
                #[trigger] target[k]).scope_id == self.scope_id by {
                    assert(given[k].scope_id == self.scope_id);
                }
            }
            assert(distinct_ids(before + target)) by {
                let old_all = before + given;
                let new_all = before + target;
                assert forall|a: int, b: int| 0 <= a < b < new_all.len() implies (
                #[trigger] new_all[a]).id != (#[trigger] new_all[b]).id by {
                    assert(old_all[a].id != old_all[b].id);
                    assert(new_all[a].id == old_all[a].id);
                    assert(new_all[b].id == old_all[b].id);
                }
            }
            lemma_extended_wf(before, self.scope_id, target);
        }
        self.entries.append(&mut batch);
        Ok(changes)
    }

    /// Posts the entries of a staged ledger to this ledger, the posted
    /// ledger of an account. Each staged entry becomes a posted entry under
    /// the identifier that `ids` gives for it, numbered at this ledger's
    /// high-water mark plus its staged number; date, amount, balance,
    /// reference and description are carried over as they are. The result
    /// lists one insert per entry, in ascending order of the numbers.
    ///
    /// Refused with `ValidationFailure` where `ids` does not hold one
    /// identifier per staged entry or a number cannot be stored, and with
    /// `ConstraintViolation` where an identifier would occur twice. A
    /// refused promotion changes nothing.
    pub fn promote_from(&mut self, staged: &Ledger, ids: &Vec<u128>) -> (result: Result<
        Vec<RowChange>,
        LedgerError,
    >)
        requires
            old(self).wf(),
            staged.wf(),
        ensures
            final(self).wf(),
            final(self).scope() == old(self).scope(),
            match promotion_refusal(old(self)@, old(self).scope(), staged@, ids@) {
                Some(error) => result == Err::<Vec<RowChange>, LedgerError>(error) && *final(self)
                    == *old(self),
                None => result is Ok && result.unwrap()@ == inserts_of(
                    promoted(staged@, old(self).scope(), high_water_mark(old(self)@), ids@),
                ) && final(self)@ == old(self)@ + promoted(
                    staged@,
                    old(self).scope(),
                    high_water_mark(old(self)@),
                    ids@,
                ),
            },
    {
        let ghost before = self@;
        let n: usize = staged.entries.len();
        if ids.len() != n {
            return Err(LedgerError::ValidationFailure);
        }
        proof {
            lemma_high_water_mark(before, self.scope_id);
            lemma_high_water_mark(staged@, staged.scope_id);
        }
        let mark: i64 = self.max_sequence_number();
        if staged.max_sequence_number() > i64::MAX - mark {
            return Err(LedgerError::ValidationFailure);
        }
        let ghost target = promoted(staged@, self.scope_id, mark as int, ids@);
        let mut posted: Vec<Entry> = Vec::new();
        let mut changes: Vec<RowChange> = Vec::new();
        let mut j: usize = 0;
        while j < n
            invariant
                j <= n,
                n == staged@.len(),
                n == ids@.len(),
                staged.wf(),
                *self == *old(self),
                old(self).wf(),
                0 <= mark,
                mark + high_water_mark(staged@) <= i64::MAX,
                forall|i: int|
                    0 <= i < staged@.len() ==> (#[trigger] staged@[i]).sequence_number
                        <= high_water_mark(staged@),
                target == promoted(staged@, self.scope_id, mark as int, ids@),
                posted@ == target.take(j as int),
                changes@ == inserts_of(target).take(j as int),
            decreases n - j,
        {
            let row = &staged.entries[j];
            assert(staged@[j as int].sequence_number >= 1);
            let entry = Entry {
                id: ids[j],
                scope_id: self.scope_id,
                sequence_number: mark + row.sequence_number,
                date: row.date,
                amount: row.amount,
                balance: row.balance,
                ref_no: row.ref_no.clone(),
                description: row.description.clone(),
            };
            assert(entry == target[j as int]);
            changes.push(RowChange::Insert(entry.duplicate()));
            posted.push(entry);
            assert(posted@ =~= target.take(j + 1));
            assert(changes@ =~= inserts_of(target).take(j + 1));
            j = j + 1;
        }
        assert(posted@ =~= target);
        assert(inserts_of(target).take(n as int) =~= inserts_of(target));
        if !ids_stay_distinct(&self.entries, &posted) {
            return Err(LedgerError::ConstraintViolation);
        }
        proof {
            assert(all_of_scope(target, self.scope_id));
            assert forall|a: int, b: int| 0 <= a < b < target.len() implies (
            #[trigger] target[a]).sequence_number < (#[trigger] target[b]).sequence_number by {
                assert(staged@[a].sequence_number < staged@[b].sequence_number);
            }
            if target.len() > 0 {
                assert(staged@[0].sequence_number >= 1);
            }
            lemma_extended_wf(before, self.scope_id, target);
        }
        self.entries.append(&mut posted);
        Ok(changes)
    }
}

} // verus!
