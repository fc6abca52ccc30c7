//! A model of the store: one table of rows that keeps identifiers and
//! sequence numbers unique at every single write, with the proof that the
//! rewrite orders of the ledger pass through it.

use vstd::prelude::*;
use crate::changes::{update_of, updates_ascending, updates_descending, RowChange};
use crate::entry::Entry;
use crate::error::LedgerError;
use crate::ledger::{duplicate_rows, Ledger};
use crate::sequence::{
    ascending, distinct_ids, find_by_id, has_id, has_sequence_number, index_of, lemma_index_of,
    lemma_split_index, lemma_split_index_parts, split_index, split_point,
};

verus! {

/// The row with the number and the balance of an update written into it.
pub open spec fn rewritten(row: Entry, sequence_number: i64, balance: i64) -> Entry {
    Entry { sequence_number, balance, ..row }
}

/// What a store that keeps identifiers and sequence numbers unique makes
/// of one write: the rows after it, kept in ascending order, or `None`
/// where the store refuses the write. It refuses an insert whose
/// identifier or number a row already holds, an update or delete of a row
/// that it does not hold, and an update onto a number that another row
/// holds at that moment.
pub open spec fn apply_change(rows: Seq<Entry>, change: RowChange) -> Option<Seq<Entry>> {
    match change {
        RowChange::Insert(entry) => {
            if has_id(rows, entry.id) || has_sequence_number(rows, entry.sequence_number as int) {
                None
            } else {
                Some(rows.insert(split_index(rows, entry.sequence_number as int), entry))
            }
        },
        RowChange::Update { id, sequence_number, balance } => {
            let at = index_of(rows, id);
            let others = rows.remove(at);
            if !has_id(rows, id) || has_sequence_number(others, sequence_number as int) {
                None
            } else {
                Some(
                    others.insert(
                        split_index(others, sequence_number as int),
                        rewritten(rows[at], sequence_number, balance),
                    ),
                )
            }
        },
        RowChange::Delete { id } => {
            if !has_id(rows, id) {
                None
            } else {
                Some(rows.remove(index_of(rows, id)))
            }
        },
    }
}

/// What the store makes of a list of writes, performed one after the
/// other: the rows after the last one, or `None` as soon as it refuses
/// one.
pub open spec fn apply_changes(rows: Seq<Entry>, changes: Seq<RowChange>) -> Option<Seq<Entry>>
    decreases changes.len(),
{
    if changes.len() == 0 {
        Some(rows)
    } else {
        match apply_change(rows, changes[0]) {
            Some(next) => apply_changes(next, changes.drop_first()),
            None => None,
        }
    }
}

/// Two rows that differ in number and balance at most.
pub open spec fn same_but_position(before: Entry, after: Entry) -> bool {
    after == rewritten(before, after.sequence_number, after.balance)
}

/// The first `cut` rows of `low`, then the rows of `high` from place `cut`.
pub open spec fn hybrid(low: Seq<Entry>, high: Seq<Entry>, cut: int) -> Seq<Entry> {
    low.take(cut) + high.skip(cut)
}

/// Performing two lists of writes one after the other is performing their
/// concatenation.
pub proof fn lemma_apply_changes_concat(rows: Seq<Entry>, first: Seq<RowChange>, second: Seq<RowChange>)
    ensures
        apply_changes(rows, first + second) == (match apply_changes(rows, first) {
            Some(between) => apply_changes(between, second),
            None => None,
        }),
    decreases first.len(),
{
    if first.len() == 0 {
        assert(first + second =~= second);
    } else {
        assert((first + second)[0] == first[0]);
        assert((first + second).drop_first() =~= first.drop_first() + second);
        match apply_change(rows, first[0]) {
            Some(next) => {
                lemma_apply_changes_concat(next, first.drop_first(), second);
            },
            None => {},
        }
    }
}

/// A list of one write is that write.
pub proof fn lemma_apply_single(rows: Seq<Entry>, change: RowChange)
    ensures
        apply_changes(rows, seq![change]) == apply_change(rows, change),
{
    let changes = seq![change];
    assert(changes[0] == change);
    assert(changes.drop_first() =~= Seq::<RowChange>::empty());
    match apply_change(rows, change) {
        Some(next) => {
            assert(apply_changes(next, changes.drop_first()) == Some(next));
        },
        None => {},
    }
}

/// An update that keeps a row between its neighbours is accepted, and
/// changes that row in its place.
pub proof fn lemma_update_in_place(rows: Seq<Entry>, at: int, sequence_number: i64, balance: i64)
    requires
        ascending(rows),
        distinct_ids(rows),
        0 <= at < rows.len(),
        at > 0 ==> rows[at - 1].sequence_number < sequence_number,
        at + 1 < rows.len() ==> sequence_number < rows[at + 1].sequence_number,
    ensures
        apply_change(rows, RowChange::Update { id: rows[at].id, sequence_number, balance })
            == Some(rows.update(at, rewritten(rows[at], sequence_number, balance))),
{
    let id = rows[at].id;
    lemma_index_of(rows, id, at);
    let others = rows.remove(at);
    assert forall|i: int| 0 <= i < at implies (#[trigger] others[i]).sequence_number
        < sequence_number by {
        assert(others[i] == rows[i]);
        if i < at - 1 {
            assert(rows[i].sequence_number < rows[at - 1].sequence_number);
        }
    }
    assert forall|i: int| at <= i < others.len() implies (#[trigger] others[i]).sequence_number
        > sequence_number by {
        assert(others[i] == rows[i + 1]);
        if i + 1 > at + 1 {
            assert(rows[at + 1].sequence_number < rows[i + 1].sequence_number);
        }
    }
    lemma_split_index(others, sequence_number as int, at);
    assert(!has_sequence_number(others, sequence_number as int)) by {
        if has_sequence_number(others, sequence_number as int) {
            let i = choose|i: int|
                0 <= i < others.len() && (#[trigger] others[i]).sequence_number
                    == sequence_number;
            assert(others[i].sequence_number != sequence_number);
        }
    }
    assert(others.insert(at, rewritten(rows[at], sequence_number, balance)) =~= rows.update(
        at,
        rewritten(rows[at], sequence_number, balance),
    ));
}

/// A mix of old rows below the cut and new rows from the cut on is in
/// ascending order and holds no identifier twice, where the new rows stand
/// at the old numbers or above them.
pub proof fn lemma_hybrid_upward(before: Seq<Entry>, after: Seq<Entry>, cut: int)
    requires
        ascending(before),
        distinct_ids(before),
        ascending(after),
        before.len() == after.len(),
        0 <= cut <= before.len(),
        forall|i: int|
            0 <= i < before.len() ==> same_but_position(before[i], #[trigger] after[i])
                && after[i].sequence_number >= before[i].sequence_number,
    ensures
        ascending(hybrid(before, after, cut)),
        distinct_ids(hybrid(before, after, cut)),
        hybrid(before, after, cut).len() == before.len(),
{
    let mix = hybrid(before, after, cut);
    assert forall|i: int, j: int| 0 <= i < j < mix.len() implies (
    #[trigger] mix[i]).sequence_number < (#[trigger] mix[j]).sequence_number by {
        if j < cut {
            assert(before[i].sequence_number < before[j].sequence_number);
        } else if i >= cut {
            assert(after[i].sequence_number < after[j].sequence_number);
        } else {
            assert(before[i].sequence_number < before[j].sequence_number);
            assert(same_but_position(before[j], after[j]));
        }
    }
    assert forall|i: int, j: int| 0 <= i < j < mix.len() implies (#[trigger] mix[i]).id != (
    #[trigger] mix[j]).id by {
        assert(before[i].id != before[j].id);
        assert(same_but_position(before[i], after[i]));
        assert(same_but_position(before[j], after[j]));
    }
}

/// The same for new rows below the cut and old rows from the cut on, where
/// the new rows stand at the old numbers or below them.
pub proof fn lemma_hybrid_downward(before: Seq<Entry>, after: Seq<Entry>, cut: int)
    requires
        ascending(before),
        distinct_ids(before),
        ascending(after),
        before.len() == after.len(),
        0 <= cut <= before.len(),
        forall|i: int|
            0 <= i < before.len() ==> same_but_position(before[i], #[trigger] after[i])
                && after[i].sequence_number <= before[i].sequence_number,
    ensures
        ascending(hybrid(after, before, cut)),
        distinct_ids(hybrid(after, before, cut)),
        hybrid(after, before, cut).len() == before.len(),
{
    let mix = hybrid(after, before, cut);
    assert forall|i: int, j: int| 0 <= i < j < mix.len() implies (
    #[trigger] mix[i]).sequence_number < (#[trigger] mix[j]).sequence_number by {
        if j < cut {
            assert(after[i].sequence_number < after[j].sequence_number);
        } else if i >= cut {
            assert(before[i].sequence_number < before[j].sequence_number);
        } else {
            assert(before[i].sequence_number < before[j].sequence_number);
            assert(same_but_position(before[i], after[i]));
        }
    }
    assert forall|i: int, j: int| 0 <= i < j < mix.len() implies (#[trigger] mix[i]).id != (
    #[trigger] mix[j]).id by {
        assert(before[i].id != before[j].id);
        assert(same_but_position(before[i], after[i]));
        assert(same_but_position(before[j], after[j]));
    }
}

/// Rows that move to their own or to higher numbers can be rewritten one
/// by one from the highest down: the store accepts every write, and ends
/// with the new rows.
pub proof fn lemma_replay_descending(before: Seq<Entry>, after: Seq<Entry>, from: int, cut: int)
    requires
        ascending(before),
        distinct_ids(before),
        ascending(after),
        before.len() == after.len(),
        0 <= from <= cut <= before.len(),
        forall|i: int|
            0 <= i < before.len() ==> same_but_position(before[i], #[trigger] after[i])
                && after[i].sequence_number >= before[i].sequence_number,
        forall|i: int| 0 <= i < from ==> before[i] == #[trigger] after[i],
    ensures
        apply_changes(
            hybrid(before, after, cut),
            updates_descending(after.subrange(from, cut)),
        ) == Some(after),
    decreases cut - from,
{
    let mix = hybrid(before, after, cut);
    let changes = updates_descending(after.subrange(from, cut));
    if cut == from {
        assert(mix =~= after);
    } else {
        let at = cut - 1;
        lemma_hybrid_upward(before, after, cut);
        assert(changes[0] == update_of(after[at]));
        assert(mix[at] == before[at]);
        assert(same_but_position(before[at], after[at]));
        if at > 0 {
            assert(mix[at - 1] == before[at - 1]);
            assert(before[at - 1].sequence_number < before[at].sequence_number);
        }
        if at + 1 < mix.len() {
            assert(mix[at + 1] == after[at + 1]);
            assert(after[at].sequence_number < after[at + 1].sequence_number);
        }
        lemma_update_in_place(mix, at, after[at].sequence_number, after[at].balance);
        assert(mix.update(at, after[at]) =~= hybrid(before, after, at));
        assert(changes.drop_first() =~= updates_descending(after.subrange(from, at)));
        lemma_replay_descending(before, after, from, at);
    }
}

/// Rows that move to their own or to lower numbers can be rewritten one by
/// one from the lowest up: the store accepts every write, and ends with
/// the new rows.
pub proof fn lemma_replay_ascending(before: Seq<Entry>, after: Seq<Entry>, cut: int)
    requires
        ascending(before),
        distinct_ids(before),
        ascending(after),
        before.len() == after.len(),
        0 <= cut <= before.len(),
        forall|i: int|
            0 <= i < before.len() ==> same_but_position(before[i], #[trigger] after[i])
                && after[i].sequence_number <= before[i].sequence_number,
    ensures
        apply_changes(hybrid(after, before, cut), updates_ascending(after.skip(cut))) == Some(
            after,
        ),
    decreases before.len() - cut,
{
    let mix = hybrid(after, before, cut);
    let changes = updates_ascending(after.skip(cut));
    if cut == before.len() {
        assert(mix =~= after);
    } else {
        lemma_hybrid_downward(before, after, cut);
        assert(changes[0] == update_of(after[cut]));
        assert(mix[cut] == before[cut]);
        assert(same_but_position(before[cut], after[cut]));
        if cut > 0 {
            assert(mix[cut - 1] == after[cut - 1]);
            assert(after[cut - 1].sequence_number < after[cut].sequence_number);
        }
        if cut + 1 < mix.len() {
            assert(mix[cut + 1] == before[cut + 1]);
            assert(before[cut].sequence_number < before[cut + 1].sequence_number);
        }
        lemma_update_in_place(mix, cut, after[cut].sequence_number, after[cut].balance);
        assert(mix.update(cut, after[cut]) =~= hybrid(after, before, cut + 1));
        assert(changes.drop_first() =~= updates_ascending(after.skip(cut + 1)));
        lemma_replay_ascending(before, after, cut + 1);
    }
}

/// Taking a row out leaves the rows in ascending order and without an
/// identifier twice.
pub proof fn lemma_remove_keeps_order(rows: Seq<Entry>, at: int)
    requires
        ascending(rows),
        distinct_ids(rows),
        0 <= at < rows.len(),
    ensures
        ascending(rows.remove(at)),
        distinct_ids(rows.remove(at)),
        !has_id(rows.remove(at), rows[at].id),
{
    let rest = rows.remove(at);
    assert forall|i: int, j: int| 0 <= i < j < rest.len() implies (
    #[trigger] rest[i]).sequence_number < (#[trigger] rest[j]).sequence_number by {
        let a = if i < at { i } else { i + 1 };
        let b = if j < at { j } else { j + 1 };
        assert(rest[i] == rows[a] && rest[j] == rows[b]);
        assert(rows[a].sequence_number < rows[b].sequence_number);
    }
    assert forall|i: int, j: int| 0 <= i < j < rest.len() implies (#[trigger] rest[i]).id != (
    #[trigger] rest[j]).id by {
        let a = if i < at { i } else { i + 1 };
        let b = if j < at { j } else { j + 1 };
        assert(rest[i] == rows[a] && rest[j] == rows[b]);
        assert(rows[a].id != rows[b].id);
    }
    assert(!has_id(rest, rows[at].id)) by {
        if has_id(rest, rows[at].id) {
            let i = choose|i: int| 0 <= i < rest.len() && (#[trigger] rest[i]).id == rows[at].id;
            let a = if i < at { i } else { i + 1 };
            assert(rest[i] == rows[a]);
            if a < at {
                assert(rows[a].id != rows[at].id);
            } else {
                assert(rows[at].id != rows[a].id);
            }
        }
    }
}

/// Putting a row whose identifier and number no row holds at the place of
/// its number leaves the rows in ascending order and without an identifier
/// twice.
pub proof fn lemma_insert_keeps_order(rows: Seq<Entry>, entry: Entry)
    requires
        ascending(rows),
        distinct_ids(rows),
        !has_id(rows, entry.id),
        !has_sequence_number(rows, entry.sequence_number as int),
    ensures
        ascending(rows.insert(split_index(rows, entry.sequence_number as int), entry)),
        distinct_ids(rows.insert(split_index(rows, entry.sequence_number as int), entry)),
{
    let number = entry.sequence_number as int;
    let at = split_index(rows, number);
    let out = rows.insert(at, entry);
    lemma_split_index_parts(rows, number);
    assert forall|i: int, j: int| 0 <= i < j < out.len() implies (
    #[trigger] out[i]).sequence_number < (#[trigger] out[j]).sequence_number by {
        let a = if i < at { i } else { i - 1 };
        let b = if j < at { j } else { j - 1 };
        if i == at {
            assert(out[j] == rows[b]);
            assert(rows[b].sequence_number >= number);
            assert(rows[b].sequence_number != number);
        } else if j == at {
            assert(out[i] == rows[a]);
            assert(rows[a].sequence_number < number);
        } else {
            assert(out[i] == rows[a] && out[j] == rows[b]);
            assert(rows[a].sequence_number < rows[b].sequence_number);
        }
    }
    assert forall|i: int, j: int| 0 <= i < j < out.len() implies (#[trigger] out[i]).id != (
    #[trigger] out[j]).id by {
        let a = if i < at { i } else { i - 1 };
        let b = if j < at { j } else { j - 1 };
        if i == at {
            assert(out[j] == rows[b]);
            assert(rows[b].id != entry.id);
        } else if j == at {
            assert(out[i] == rows[a]);
            assert(rows[a].id != entry.id);
        } else {
            assert(out[i] == rows[a] && out[j] == rows[b]);
            assert(rows[a].id != rows[b].id);
        }
    }
}

/// Whatever write the store accepts, its rows stay in strictly ascending
/// order of their numbers, and so hold no number twice, and hold no
/// identifier twice.
pub proof fn lemma_apply_change_keeps_order(rows: Seq<Entry>, change: RowChange)
    requires
        ascending(rows),
        distinct_ids(rows),
        apply_change(rows, change) is Some,
    ensures
        ascending(apply_change(rows, change).unwrap()),
        distinct_ids(apply_change(rows, change).unwrap()),
{
    match change {
        RowChange::Insert(entry) => {
            lemma_insert_keeps_order(rows, entry);
        },
        RowChange::Update { id, sequence_number, balance } => {
            let at = index_of(rows, id);
            assert(0 <= at < rows.len() && rows[at].id == id);
            lemma_remove_keeps_order(rows, at);
            lemma_insert_keeps_order(rows.remove(at), rewritten(rows[at], sequence_number, balance));
        },
        RowChange::Delete { id } => {
            let at = index_of(rows, id);
            assert(0 <= at < rows.len() && rows[at].id == id);
            lemma_remove_keeps_order(rows, at);
        },
    }
}

/// Why the store refuses a write that it refuses: `NotFound` for an update
/// or delete of a row that it does not hold, `ConstraintViolation` for an
/// identifier or a number that is taken.
pub open spec fn change_refusal(rows: Seq<Entry>, change: RowChange) -> LedgerError {
    match change {
        RowChange::Insert(_) => LedgerError::ConstraintViolation,
        RowChange::Update { id, .. } => if has_id(rows, id) {
            LedgerError::ConstraintViolation
        } else {
            LedgerError::NotFound
        },
        RowChange::Delete { .. } => LedgerError::NotFound,
    }
}

/// Why the store refuses a list of writes, if it does: the refusal of the
/// first write that it does not accept.
pub open spec fn changes_refusal(rows: Seq<Entry>, changes: Seq<RowChange>) -> Option<LedgerError>
    decreases changes.len(),
{
    if changes.len() == 0 {
        None
    } else {
        match apply_change(rows, changes[0]) {
            Some(next) => changes_refusal(next, changes.drop_first()),
            None => Some(change_refusal(rows, changes[0])),
        }
    }
}

/// The store refuses a list of writes exactly where it accepts no end
/// state for it.
pub proof fn law_refusal_iff_no_outcome(rows: Seq<Entry>, changes: Seq<RowChange>)
    ensures
        changes_refusal(rows, changes) is None <==> apply_changes(rows, changes) is Some,
    decreases changes.len(),
{
    if changes.len() > 0 {
        match apply_change(rows, changes[0]) {
            Some(next) => {
                law_refusal_iff_no_outcome(next, changes.drop_first());
            },
            None => {},
        }
    }
}

/// Whether a row holds the number.
fn holds_number(rows: &Vec<Entry>, sequence_number: i64) -> (held: bool)
    ensures
        held == has_sequence_number(rows@, sequence_number as int),
{
    let mut i: usize = 0;
    while i < rows.len()
        invariant
            i <= rows.len(),
            forall|k: int| 0 <= k < i ==> (#[trigger] rows@[k]).sequence_number != sequence_number,
        decreases rows.len() - i,
    {
        if rows[i].sequence_number == sequence_number {
            return true;
        }
        i = i + 1;
    }
    false
}

/// The rows of one scope as a store holds them: a table that keeps
/// identifiers and sequence numbers unique at every single write. It
/// takes the row writes that the ledger yields and performs them one by
/// one, as a persistent store would.
#[derive(Debug)]
pub struct RowStore {
    rows: Vec<Entry>,
}

impl View for RowStore {
    type V = Seq<Entry>;

    closed spec fn view(&self) -> Seq<Entry> {
        self.rows@
    }
}

impl RowStore {
    /// What every store satisfies: its rows are in strictly ascending order
    /// of their numbers, and no identifier occurs twice.
    pub open spec fn wf(&self) -> bool {
        ascending(self@) && distinct_ids(self@)
    }

    /// An empty store.
    pub fn new() -> (store: RowStore)
        ensures
            store.wf(),
            store@ == Seq::<Entry>::empty(),
    {
        RowStore { rows: Vec::new() }
    }

    /// A store that holds copies of the rows of a ledger.
    pub fn holding(ledger: &Ledger) -> (store: RowStore)
        requires
            ledger.wf(),
        ensures
            store.wf(),
            store@ == ledger@,
    {
        RowStore { rows: duplicate_rows(ledger.entries()) }
    }

    /// The rows, in ascending order of their numbers.
    pub fn rows(&self) -> (rows: &Vec<Entry>)
        ensures
            rows@ == self@,
    {
        &self.rows
    }

    /// Performs one write, or refuses it and stays as it is.
    pub fn write(&mut self, change: &RowChange) -> (result: Result<(), LedgerError>)
        requires
            old(self).wf(),
        ensures
            final(self).wf(),
            match apply_change(old(self)@, *change) {
                Some(rows) => result is Ok && final(self)@ == rows,
                None => result == Err::<(), LedgerError>(change_refusal(old(self)@, *change))
                    && final(self)@ == old(self)@,
            },
    {
        let ghost before = self@;
        match change {
            RowChange::Insert(entry) => {
                if find_by_id(&self.rows, entry.id).is_some() || holds_number(
                    &self.rows,
                    entry.sequence_number,
                ) {
                    return Err(LedgerError::ConstraintViolation);
                }
                let at: usize = split_point(&self.rows, entry.sequence_number);
                proof {
                    lemma_insert_keeps_order(before, *entry);
                }
                self.rows.insert(at, entry.duplicate());
                Ok(())
            },
            RowChange::Update { id, sequence_number, balance } => {
                let at: usize = match find_by_id(&self.rows, *id) {
                    Some(at) => at,
                    None => {
                        return Err(LedgerError::NotFound);
                    },
                };
                proof {
                    lemma_index_of(before, *id, at as int);
                    lemma_remove_keeps_order(before, at as int);
                }
                let mut row = self.rows.remove(at);
                if holds_number(&self.rows, *sequence_number) {
                    self.rows.insert(at, row);
                    assert(self.rows@ =~= before);
                    return Err(LedgerError::ConstraintViolation);
                }
                row.sequence_number = *sequence_number;
                row.balance = *balance;
                let to: usize = split_point(&self.rows, *sequence_number);
                proof {
                    lemma_insert_keeps_order(before.remove(at as int), row);
                }
                self.rows.insert(to, row);
                Ok(())
            },
            RowChange::Delete { id } => {
                let at: usize = match find_by_id(&self.rows, *id) {
                    Some(at) => at,
                    None => {
                        return Err(LedgerError::NotFound);
                    },
                };
                proof {
                    lemma_index_of(before, *id, at as int);
                    lemma_remove_keeps_order(before, at as int);
                }
                let _ = self.rows.remove(at);
                Ok(())
            },
        }
    }

    /// Performs a list of writes as one transaction: one by one in the
    /// order given, and all or none. Where the store refuses one of them,
    /// it is left exactly as it was before the first.
    pub fn write_all(&mut self, changes: &Vec<RowChange>) -> (result: Result<(), LedgerError>)
        requires
            old(self).wf(),
        ensures
            final(self).wf(),
            match apply_changes(old(self)@, changes@) {
                Some(rows) => result is Ok && final(self)@ == rows,
                None => changes_refusal(old(self)@, changes@) is Some && result == Err::<
                    (),
                    LedgerError,
                >(changes_refusal(old(self)@, changes@).unwrap()) && final(self)@ == old(self)@,
            },
    {
        let ghost before = self@;
        let mut work = RowStore { rows: duplicate_rows(&self.rows) };
        let mut i: usize = 0;
        assert(changes@.skip(0) =~= changes@);
        while i < changes.len()
            invariant
                i <= changes.len(),
                work.wf(),
                *self == *old(self),
                before == self@,
                old(self).wf(),
                apply_changes(before, changes@) == apply_changes(work@, changes@.skip(i as int)),
                changes_refusal(before, changes@) == changes_refusal(
                    work@,
                    changes@.skip(i as int),
                ),
            decreases changes.len() - i,
        {
            let ghost rest = changes@.skip(i as int);
            assert(rest[0] == changes@[i as int]);
            assert(rest.drop_first() =~= changes@.skip(i + 1));
            match work.write(&changes[i]) {
                Ok(_) => {},
                Err(error) => {
                    return Err(error);
                },
            }
            i = i + 1;
        }
        assert(changes@.skip(changes.len() as int) =~= Seq::<RowChange>::empty());
        self.rows = work.rows;
        Ok(())
    }
}

} // verus!
