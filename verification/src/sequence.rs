//! The sequence integrity manager: where an entry belongs, which entries
//! move when one is inserted or deleted, and in which order the store is to
//! rewrite them so that no two rows ever share a number.

use vstd::prelude::*;
use crate::balance::{
    balance_before, balances_fit, rebalanced, recalculate_balance, recalculated, running_balance,
};
use crate::changes::{updates_ascending, updates_descending, RowChange};
use crate::entry::Entry;
use crate::error::LedgerError;

verus! {

/// The rows of one scope, as a ledger keeps them: all of that scope,
/// numbered from one upwards, strictly ascending by sequence number (so no
/// number occurs twice), and no identifier twice.
pub open spec fn rows_wf(rows: Seq<Entry>, scope: u128) -> bool {
    &&& forall|i: int|
        0 <= i < rows.len() ==> (#[trigger] rows[i]).scope_id == scope && rows[i].sequence_number
            >= 1
    &&& ascending(rows)
    &&& distinct_ids(rows)
}

/// Strictly ascending by sequence number.
pub open spec fn ascending(rows: Seq<Entry>) -> bool {
    forall|i: int, j: int|
        0 <= i < j < rows.len() ==> (#[trigger] rows[i]).sequence_number < (
        #[trigger] rows[j]).sequence_number
}

/// No two rows share an identifier.
pub open spec fn distinct_ids(rows: Seq<Entry>) -> bool {
    forall|i: int, j: int|
        0 <= i < j < rows.len() ==> (#[trigger] rows[i]).id != (#[trigger] rows[j]).id
}

/// Some row has the identifier.
pub open spec fn has_id(rows: Seq<Entry>, id: u128) -> bool {
    exists|i: int| 0 <= i < rows.len() && (#[trigger] rows[i]).id == id
}

/// Some row has the sequence number.
pub open spec fn has_sequence_number(rows: Seq<Entry>, sequence_number: int) -> bool {
    exists|i: int| 0 <= i < rows.len() && (#[trigger] rows[i]).sequence_number == sequence_number
}

/// The place of the row with the identifier.
pub open spec fn index_of(rows: Seq<Entry>, id: u128) -> int {
    choose|i: int| 0 <= i < rows.len() && (#[trigger] rows[i]).id == id
}

/// How many rows are numbered below `sequence_number`. In ascending rows
/// this is the place at which a row with that number belongs.
pub open spec fn split_index(rows: Seq<Entry>, sequence_number: int) -> int
    decreases rows.len(),
{
    if rows.len() == 0 {
        0
    } else {
        split_index(rows.drop_last(), sequence_number) + (if rows.last().sequence_number
            < sequence_number {
            1int
        } else {
            0int
        })
    }
}

/// The length of the unbroken run of rows that starts at place `from` with
/// the number `sequence_number` and goes on in steps of one.
pub open spec fn run_length(rows: Seq<Entry>, from: int, sequence_number: int) -> int
    decreases rows.len() - from,
{
    if 0 <= from < rows.len() && rows[from].sequence_number == sequence_number {
        1 + run_length(rows, from + 1, sequence_number + 1)
    } else {
        0
    }
}

/// The largest sequence number in use, or zero for no rows.
pub open spec fn high_water_mark(rows: Seq<Entry>) -> int {
    if rows.len() == 0 {
        0
    } else {
        rows.last().sequence_number as int
    }
}

/// The first `count` rows moved up by one number, the rest as they are.
pub open spec fn shifted_up(rows: Seq<Entry>, count: int) -> Seq<Entry> {
    Seq::new(
        rows.len(),
        |i: int|
            if i < count {
                rows[i].with_sequence_number((rows[i].sequence_number + 1) as i64)
            } else {
                rows[i]
            },
    )
}

/// Every row moved down by one number.
pub open spec fn shifted_down(rows: Seq<Entry>) -> Seq<Entry> {
    Seq::new(
        rows.len(),
        |i: int| rows[i].with_sequence_number((rows[i].sequence_number - 1) as i64),
    )
}

/// The balance that a new entry gets: the balance of the row with the
/// largest number below its own, or zero where there is none, plus its
/// amount.
pub open spec fn placed_balance(rows: Seq<Entry>, entry: Entry) -> int {
    balance_before(rows, 0, split_index(rows, entry.sequence_number as int)) + entry.amount
}

/// The new entry as it is stored.
pub open spec fn placed(rows: Seq<Entry>, entry: Entry) -> Entry {
    entry.with_balance(placed_balance(rows, entry) as i64)
}

/// The rows from the requested number on, as they stand after the insert:
/// balances recalculated through all of them, numbers moved up by one
/// through the unbroken run that starts at the requested number, and left
/// alone from the first gap on.
pub open spec fn insert_dependents(rows: Seq<Entry>, entry: Entry) -> Seq<Entry> {
    let at = split_index(rows, entry.sequence_number as int);
    shifted_up(
        rebalanced(rows.skip(at), placed_balance(rows, entry)),
        run_length(rows, at, entry.sequence_number as int),
    )
}

/// The rows after `entry` was inserted at its requested number.
pub open spec fn inserted(rows: Seq<Entry>, entry: Entry) -> Seq<Entry> {
    rows.take(split_index(rows, entry.sequence_number as int)).push(placed(rows, entry))
        + insert_dependents(rows, entry)
}

/// The balances and numbers that an insert writes can all be stored.
pub open spec fn insert_fits(rows: Seq<Entry>, entry: Entry) -> bool {
    let at = split_index(rows, entry.sequence_number as int);
    &&& i64::MIN <= placed_balance(rows, entry) <= i64::MAX
    &&& balances_fit(rows.skip(at), placed_balance(rows, entry))
    &&& entry.sequence_number + run_length(rows, at, entry.sequence_number as int) <= i64::MAX
}

/// Why an insert is refused, if it is.
pub open spec fn insert_refusal(rows: Seq<Entry>, scope: u128, entry: Entry) -> Option<
    LedgerError,
> {
    if entry.scope_id != scope || entry.sequence_number < 1 {
        Some(LedgerError::ValidationFailure)
    } else if has_id(rows, entry.id) {
        Some(LedgerError::ConstraintViolation)
    } else if !insert_fits(rows, entry) {
        Some(LedgerError::ValidationFailure)
    } else {
        None
    }
}

/// The writes of an insert, in the order in which the store performs them:
/// the dependents from the highest number down, so that no row is moved
/// onto a number that another row still holds, then the new entry.
pub open spec fn insert_changes(rows: Seq<Entry>, entry: Entry) -> Seq<RowChange> {
    updates_descending(insert_dependents(rows, entry)).push(RowChange::Insert(placed(rows, entry)))
}

/// The balance that stood before the row at place `at`, reckoned from the
/// row itself: its balance less its amount.
pub open spec fn balance_without(rows: Seq<Entry>, at: int) -> int {
    rows[at].balance - rows[at].amount
}

/// The rows above place `at`, as they stand after the row there was
/// deleted: balances recalculated, each number one lower.
pub open spec fn delete_dependents(rows: Seq<Entry>, at: int) -> Seq<Entry> {
    shifted_down(rebalanced(rows.skip(at + 1), balance_without(rows, at)))
}

/// The rows after the row at place `at` was deleted.
pub open spec fn deleted(rows: Seq<Entry>, at: int) -> Seq<Entry> {
    rows.take(at) + delete_dependents(rows, at)
}

/// The balances that a delete writes can all be stored.
pub open spec fn delete_fits(rows: Seq<Entry>, at: int) -> bool {
    &&& i64::MIN <= balance_without(rows, at) <= i64::MAX
    &&& balances_fit(rows.skip(at + 1), balance_without(rows, at))
}

/// Why the delete of the row with `id` is refused, if it is.
pub open spec fn delete_refusal(rows: Seq<Entry>, id: u128) -> Option<LedgerError> {
    if !has_id(rows, id) {
        Some(LedgerError::NotFound)
    } else if !delete_fits(rows, index_of(rows, id)) {
        Some(LedgerError::ValidationFailure)
    } else {
        None
    }
}

/// The writes of a delete, in the order in which the store performs them:
/// the row itself goes first and frees its number, then the dependents
/// follow from the lowest number up, each onto the number just freed.
pub open spec fn delete_changes(rows: Seq<Entry>, at: int) -> Seq<RowChange> {
    seq![RowChange::Delete { id: rows[at].id }] + updates_ascending(delete_dependents(rows, at))
}

/// The rows with the balances recalculated from the first row numbered
/// `sequence_number` or above, starting from the balance of the row before.
pub open spec fn rebalanced_from(rows: Seq<Entry>, sequence_number: int) -> Seq<Entry> {
    let at = split_index(rows, sequence_number);
    rows.take(at) + rebalanced(rows.skip(at), balance_before(rows, 0, at))
}

/// The balances that such a recalculation writes can all be stored.
pub open spec fn rebalance_fits(rows: Seq<Entry>, sequence_number: int) -> bool {
    let at = split_index(rows, sequence_number);
    balances_fit(rows.skip(at), balance_before(rows, 0, at))
}

/// In ascending rows, the place that parts the rows numbered below
/// `sequence_number` from the others is the split index.
pub proof fn lemma_split_index(rows: Seq<Entry>, sequence_number: int, at: int)
    requires
        0 <= at <= rows.len(),
        forall|i: int| 0 <= i < at ==> (#[trigger] rows[i]).sequence_number < sequence_number,
        forall|i: int|
            at <= i < rows.len() ==> (#[trigger] rows[i]).sequence_number >= sequence_number,
    ensures
        split_index(rows, sequence_number) == at,
    decreases rows.len(),
{
    if rows.len() > 0 {
        let rest = rows.drop_last();
        if at == rows.len() {
            assert(rows[at - 1].sequence_number < sequence_number);
            lemma_split_index(rest, sequence_number, at - 1);
        } else {
            assert(rows[rows.len() - 1].sequence_number >= sequence_number);
            lemma_split_index(rest, sequence_number, at);
        }
    }
}

/// The split index lies within the rows; in ascending rows the rows below
/// it are numbered below `sequence_number` and the others are not.
pub proof fn lemma_split_index_parts(rows: Seq<Entry>, sequence_number: int)
    requires
        ascending(rows),
    ensures
        0 <= split_index(rows, sequence_number) <= rows.len(),
        forall|i: int|
            0 <= i < split_index(rows, sequence_number) ==> (#[trigger] rows[i]).sequence_number
                < sequence_number,
        forall|i: int|
            split_index(rows, sequence_number) <= i < rows.len() ==> (
            #[trigger] rows[i]).sequence_number >= sequence_number,
    decreases rows.len(),
{
    if rows.len() > 0 {
        let rest = rows.drop_last();
        assert(ascending(rest)) by {
            assert forall|i: int, j: int| 0 <= i < j < rest.len() implies (
            #[trigger] rest[i]).sequence_number < (#[trigger] rest[j]).sequence_number by {
                assert(rest[i] == rows[i] && rest[j] == rows[j]);
            }
        }
        lemma_split_index_parts(rest, sequence_number);
        let at = split_index(rest, sequence_number);
        let last = rows.len() - 1;
        if rows.last().sequence_number < sequence_number {
            assert forall|i: int| 0 <= i < at + 1 implies (#[trigger] rows[i]).sequence_number
                < sequence_number by {
                if i < last {
                    assert(rows[i].sequence_number < rows[last].sequence_number);
                }
            }
            if at < last {
                assert(rest[at].sequence_number >= sequence_number);
                assert(rows[at].sequence_number < rows[last].sequence_number);
            }
        } else {
            assert forall|i: int| 0 <= i < at implies (#[trigger] rows[i]).sequence_number
                < sequence_number by {
                assert(rest[i] == rows[i]);
            }
            assert forall|i: int| at <= i < rows.len() implies (
            #[trigger] rows[i]).sequence_number >= sequence_number by {
                if i < last {
                    assert(rest[i] == rows[i]);
                }
            }
        }
    }
}

/// What a run is: its rows are numbered in steps of one from
/// `sequence_number`, and the row after it, if there is one, is not the
/// next number.
pub proof fn lemma_run_length(rows: Seq<Entry>, from: int, sequence_number: int)
    requires
        0 <= from <= rows.len(),
    ensures
        0 <= run_length(rows, from, sequence_number) <= rows.len() - from,
        forall|j: int|
            0 <= j < run_length(rows, from, sequence_number) ==> (
            #[trigger] rows[from + j]).sequence_number == sequence_number + j,
        from + run_length(rows, from, sequence_number) < rows.len() ==> rows[from + run_length(
            rows,
            from,
            sequence_number,
        )].sequence_number != sequence_number + run_length(rows, from, sequence_number),
    decreases rows.len() - from,
{
    if from < rows.len() && rows[from].sequence_number == sequence_number {
        lemma_run_length(rows, from + 1, sequence_number + 1);
        let rest = run_length(rows, from + 1, sequence_number + 1);
        assert forall|j: int| 0 <= j < 1 + rest implies (
        #[trigger] rows[from + j]).sequence_number == sequence_number + j by {
            if j > 0 {
                assert(rows[from + 1 + (j - 1)].sequence_number == sequence_number + 1 + (j - 1));
            }
        }
    }
}

/// A place that satisfies what `lemma_run_length` states is the run length.
pub proof fn lemma_run_length_is(rows: Seq<Entry>, from: int, sequence_number: int, count: int)
    requires
        0 <= from,
        0 <= count <= rows.len() - from,
        forall|j: int|
            0 <= j < count ==> (#[trigger] rows[from + j]).sequence_number == sequence_number + j,
        from + count < rows.len() ==> rows[from + count].sequence_number != sequence_number
            + count,
    ensures
        run_length(rows, from, sequence_number) == count,
    decreases count,
{
    if count > 0 {
        assert(rows[from + 0].sequence_number == sequence_number + 0);
        assert forall|j: int| 0 <= j < count - 1 implies (
        #[trigger] rows[from + 1 + j]).sequence_number == sequence_number + 1 + j by {
            assert(rows[from + (j + 1)].sequence_number == sequence_number + (j + 1));
        }
        lemma_run_length_is(rows, from + 1, sequence_number + 1, count - 1);
    }
}

/// In ascending rows whose run from place `at` starts at a number that no
/// row below `at` reaches, every row after the run is numbered above it.
pub proof fn lemma_after_run(rows: Seq<Entry>, at: int, sequence_number: int)
    requires
        ascending(rows),
        0 <= at <= rows.len(),
        forall|i: int|
            at <= i < rows.len() ==> (#[trigger] rows[i]).sequence_number >= sequence_number,
    ensures
        forall|i: int|
            at + run_length(rows, at, sequence_number) <= i < rows.len() ==> (
            #[trigger] rows[i]).sequence_number > sequence_number + run_length(
                rows,
                at,
                sequence_number,
            ),
{
    lemma_run_length(rows, at, sequence_number);
    let count = run_length(rows, at, sequence_number);
    if at + count < rows.len() {
        let next = rows[at + count];
        if count > 0 {
            assert(rows[at + (count - 1)].sequence_number == sequence_number + (count - 1));
            assert(rows[at + count - 1].sequence_number < next.sequence_number);
        }
        assert(next.sequence_number > sequence_number + count);
        assert forall|i: int| at + count <= i < rows.len() implies (
        #[trigger] rows[i]).sequence_number > sequence_number + count by {
            if i > at + count {
                assert(rows[at + count].sequence_number < rows[i].sequence_number);
            }
        }
    }
}

/// The rows after an insert, place by place.
pub proof fn lemma_inserted_rows(rows: Seq<Entry>, entry: Entry)
    requires
        ascending(rows),
    ensures
        inserted(rows, entry).len() == rows.len() + 1,
        insert_dependents(rows, entry).len() == rows.len() - split_index(
            rows,
            entry.sequence_number as int,
        ),
        forall|i: int|
            0 <= i < split_index(rows, entry.sequence_number as int) ==> (#[trigger] inserted(
                rows,
                entry,
            )[i]) == rows[i],
        inserted(rows, entry)[split_index(rows, entry.sequence_number as int)] == placed(
            rows,
            entry,
        ),
        forall|i: int|
            split_index(rows, entry.sequence_number as int) < i <= rows.len() ==> (
            #[trigger] inserted(rows, entry)[i]) == insert_dependents(rows, entry)[i - 1
                - split_index(rows, entry.sequence_number as int)],
        forall|k: int|
            0 <= k < rows.len() - split_index(rows, entry.sequence_number as int) ==> {
                let at = split_index(rows, entry.sequence_number as int);
                let row = #[trigger] insert_dependents(rows, entry)[k];
                &&& row.id == rows[at + k].id
                &&& row.scope_id == rows[at + k].scope_id
                &&& row.date == rows[at + k].date
                &&& row.amount == rows[at + k].amount
                &&& row.ref_no == rows[at + k].ref_no
                &&& row.description == rows[at + k].description
                &&& row.balance == running_balance(
                    rows.skip(at),
                    placed_balance(rows, entry),
                    k + 1,
                ) as i64
                &&& row.sequence_number == (if k < run_length(
                    rows,
                    at,
                    entry.sequence_number as int,
                ) {
                    (rows[at + k].sequence_number + 1) as i64
                } else {
                    rows[at + k].sequence_number
                })
            },
{
    lemma_split_index_parts(rows, entry.sequence_number as int);
}

/// An insert that is not refused leaves a well-formed ledger.
pub proof fn lemma_inserted_wf(rows: Seq<Entry>, scope: u128, entry: Entry)
    requires
        rows_wf(rows, scope),
        insert_refusal(rows, scope, entry) is None,
    ensures
        rows_wf(inserted(rows, entry), scope),
{
    let number = entry.sequence_number as int;
    let at = split_index(rows, number);
    let count = run_length(rows, at, number);
    let out = inserted(rows, entry);
    let dependents = insert_dependents(rows, entry);
    lemma_split_index_parts(rows, number);
    lemma_run_length(rows, at, number);
    lemma_after_run(rows, at, number);
    lemma_inserted_rows(rows, entry);
    assert forall|i: int| 0 <= i < out.len() implies (#[trigger] out[i]).scope_id == scope
        && out[i].sequence_number >= 1 by {
        if i < at {
            assert(out[i] == rows[i]);
        } else if i > at {
            let k = i - 1 - at;
            assert(out[i] == dependents[k]);
            assert(rows[at + k].scope_id == scope);
            if k < count {
                assert(rows[at + k].sequence_number == number + k);
            }
        }
    }
    assert forall|i: int, j: int| 0 <= i < j < out.len() implies (
    #[trigger] out[i]).sequence_number < (#[trigger] out[j]).sequence_number by {
        let a = i - 1 - at;
        let b = j - 1 - at;
        if i > at {
            assert(out[i] == dependents[a]);
            if a < count {
                assert(rows[at + a].sequence_number == number + a);
            }
        } else if i < at {
            assert(out[i] == rows[i]);
        }
        if j > at {
            assert(out[j] == dependents[b]);
            assert(rows[at + b].sequence_number >= number);
            if b < count {
                assert(rows[at + b].sequence_number == number + b);
            } else {
                assert(rows[at + b].sequence_number > number + count);
            }
        } else if j < at {
            assert(out[j] == rows[j]);
        }
        if i < at && j > at {
            assert(rows[i].sequence_number < number);
        }
        if i > at && j > at {
            assert(rows[at + a].sequence_number < rows[at + b].sequence_number);
        }
        if i < at && j < at {
            assert(rows[i].sequence_number < rows[j].sequence_number);
        }
    }
    assert forall|i: int, j: int| 0 <= i < j < out.len() implies (#[trigger] out[i]).id != (
    #[trigger] out[j]).id by {
        let a = i - 1 - at;
        let b = j - 1 - at;
        if i > at {
            assert(out[i] == dependents[a]);
            assert(rows[at + a].id == out[i].id);
        } else if i < at {
            assert(out[i] == rows[i]);
        }
        if j > at {
            assert(out[j] == dependents[b]);
            assert(rows[at + b].id == out[j].id);
        } else if j < at {
            assert(out[j] == rows[j]);
        }
        if i > at && j > at {
            assert(rows[at + a].id != rows[at + b].id);
        }
        if i < at && j < at {
            assert(rows[i].id != rows[j].id);
        }
        if i < at && j > at {
            assert(rows[i].id != rows[at + b].id);
        }
    }
}

/// The place of the row with `id`, if there is one.
pub(crate) fn find_by_id(rows: &Vec<Entry>, id: u128) -> (found: Option<usize>)
    ensures
        match found {
            Some(at) => at < rows.len() && rows@[at as int].id == id,
            None => !has_id(rows@, id),
        },
{
    let mut i: usize = 0;
    while i < rows.len()
        invariant
            i <= rows.len(),
            forall|k: int| 0 <= k < i ==> (#[trigger] rows@[k]).id != id,
        decreases rows.len() - i,
    {
        if rows[i].id == id {
            return Some(i);
        }
        i = i + 1;
    }
    None
}

/// The place at which a row numbered `sequence_number` belongs.
pub(crate) fn split_point(rows: &Vec<Entry>, sequence_number: i64) -> (at: usize)
    requires
        ascending(rows@),
    ensures
        at == split_index(rows@, sequence_number as int),
        at <= rows.len(),
{
    let mut i: usize = 0;
    while i < rows.len() && rows[i].sequence_number < sequence_number
        invariant
            i <= rows.len(),
            ascending(rows@),
            forall|k: int| 0 <= k < i ==> (#[trigger] rows@[k]).sequence_number < sequence_number,
        decreases rows.len() - i,
    {
        i = i + 1;
    }
    proof {
        assert forall|k: int| i <= k < rows.len() implies (#[trigger] rows@[k]).sequence_number
            >= sequence_number by {
            if k > i {
                assert(rows@[i as int].sequence_number < rows@[k].sequence_number);
            }
        }
        lemma_split_index(rows@, sequence_number as int, i as int);
    }
    i
}

/// The length of the unbroken run that starts at place `from` with the
/// number `sequence_number`.
pub(crate) fn run_end(rows: &Vec<Entry>, from: usize, sequence_number: i64) -> (count: usize)
    requires
        from <= rows.len(),
    ensures
        count == run_length(rows@, from as int, sequence_number as int),
        from + count <= rows.len(),
{
    let mut count: usize = 0;
    let mut expected: i64 = sequence_number;
    let mut open: bool = true;
    while open && from + count < rows.len()
        invariant
            from + count <= rows.len(),
            open ==> expected == sequence_number + count,
            forall|j: int|
                0 <= j < count ==> (#[trigger] rows@[from + j]).sequence_number == sequence_number
                    + j,
            !open ==> from + count < rows.len() && rows@[from + count].sequence_number
                != sequence_number + count,
        decreases (if open { 1int } else { 0int }) + rows.len() - from - count,
    {
        if rows[from + count].sequence_number == expected {
            count = count + 1;
            if expected < i64::MAX {
                expected = expected + 1;
            } else {
                open = false;
                proof {
                    if from + count < rows.len() {
                        assert(rows@[from + count].sequence_number <= i64::MAX);
                    }
                }
                if from + count < rows.len() {
                } else {
                    proof {
                        lemma_run_length_is(
                            rows@,
                            from as int,
                            sequence_number as int,
                            count as int,
                        );
                    }
                    return count;
                }
            }
        } else {
            open = false;
        }
    }
    proof {
        lemma_run_length_is(rows@, from as int, sequence_number as int, count as int);
    }
    count
}

/// Inserts `entry` at its requested number: sets its balance, recalculates
/// the balances of the rows from that number on, moves the unbroken run
/// that starts at that number up by one, and yields the writes in the
/// order in which a store can perform them without two rows ever sharing a
/// number. A refused insert leaves the rows as they were.
pub(crate) fn insert_entry(rows: &mut Vec<Entry>, scope: u128, entry: Entry) -> (result: Result<
    Vec<RowChange>,
    LedgerError,
>)
    requires
        rows_wf(old(rows)@, scope),
    ensures
        rows_wf(final(rows)@, scope),
        match insert_refusal(old(rows)@, scope, entry) {
            Some(error) => result == Err::<Vec<RowChange>, LedgerError>(error) && *final(rows)
                == *old(rows),
            None => result is Ok && result.unwrap()@ == insert_changes(old(rows)@, entry)
                && final(rows)@ == inserted(old(rows)@, entry),
        },
{
    let ghost before = rows@;
    if entry.scope_id != scope || entry.sequence_number < 1 {
        return Err(LedgerError::ValidationFailure);
    }
    if find_by_id(rows, entry.id).is_some() {
        return Err(LedgerError::ConstraintViolation);
    }
    let at: usize = split_point(rows, entry.sequence_number);
    let ghost tail = before.skip(at as int);
    let previous: i64 = if at == 0 {
        0
    } else {
        rows[at - 1].balance
    };
    let first: i64 = match previous.checked_add(entry.amount) {
        Some(balance) => balance,
        None => {
            return Err(LedgerError::ValidationFailure);
        },
    };
    assert(first == placed_balance(before, entry));
    let len: usize = rows.len();
    let updates: Vec<(u128, i64)> = {
        let dependents = vstd::slice::slice_subrange(rows.as_slice(), at, len);
        assert(dependents@ =~= tail);
        match recalculate_balance(dependents, first) {
            Ok(updates) => updates,
            Err(_) => {
                return Err(LedgerError::ValidationFailure);
            },
        }
    };
    let count: usize = run_end(rows, at, entry.sequence_number);
    proof {
        lemma_run_length(before, at as int, entry.sequence_number as int);
    }
    if count > 0 && rows[at + count - 1].sequence_number == i64::MAX {
        assert(before[at + (count - 1)].sequence_number == entry.sequence_number + (count - 1));
        return Err(LedgerError::ValidationFailure);
    }
    proof {
        if count > 0 {
            assert(before[at + (count - 1)].sequence_number == entry.sequence_number + (count
                - 1));
        }
        assert(insert_refusal(before, scope, entry) is None);
        lemma_inserted_rows(before, entry);
    }
    let ghost dependents = insert_dependents(before, entry);
    let n: usize = len - at;
    let mut j: usize = 0;
    while j < n
        invariant
            j <= n,
            at + n == len,
            count <= n,
            rows@.len() == len,
            before.len() == len,
            updates@ == recalculated(tail, first as int),
            tail == before.skip(at as int),
            dependents == insert_dependents(before, entry),
            dependents.len() == n,
            at == split_index(before, entry.sequence_number as int),
            count == run_length(before, at as int, entry.sequence_number as int),
            first == placed_balance(before, entry),
            forall|k: int|
                0 <= k < count ==> (#[trigger] before[at + k]).sequence_number < i64::MAX,
            forall|i: int| 0 <= i < at ==> (#[trigger] rows@[i]) == before[i],
            forall|i: int| at <= i < at + j ==> (#[trigger] rows@[i]) == dependents[i - at],
            forall|i: int| at + j <= i < len ==> (#[trigger] rows@[i]) == before[i],
        decreases n - j,
    {
        let ghost current = rows@;
        assert(current[at + j] == before[at + j]);
        assert(before[at + j].sequence_number < i64::MAX || j >= count);
        rows[at + j].balance = updates[j].1;
        if j < count {
            let number: i64 = rows[at + j].sequence_number;
            rows[at + j].sequence_number = number + 1;
        }
        assert(tail[j as int] == before[at + j]);
        assert(rows@[at + j] == dependents[j as int]);
        j = j + 1;
    }
    let mut changes: Vec<RowChange> = Vec::new();
    let mut k: usize = n;
    while k > 0
        invariant
            k <= n,
            at + n == len,
            rows@.len() == len,
            dependents.len() == n,
            changes@ == updates_descending(dependents).take(n - k),
            forall|i: int| 0 <= i < at ==> (#[trigger] rows@[i]) == before[i],
            forall|i: int| at <= i < len ==> (#[trigger] rows@[i]) == dependents[i - at],
        decreases k,
    {
        k = k - 1;
        let row = &rows[at + k];
        changes.push(
            RowChange::Update {
                id: row.id,
                sequence_number: row.sequence_number,
                balance: row.balance,
            },
        );
        assert(rows@[at + k] == dependents[k as int]);
        assert(changes@ =~= updates_descending(dependents).take(n - k));
    }
    let ghost entry_before = entry;
    let mut stored = entry;
    stored.balance = first;
    assert(stored == placed(before, entry_before));
    changes.push(RowChange::Insert(stored.duplicate()));
    rows.insert(at, stored);
    proof {
        assert(changes@ =~= insert_changes(before, entry_before));
        assert(rows@ =~= inserted(before, entry_before));
        lemma_inserted_wf(before, scope, entry_before);
    }
    Ok(changes)
}

/// With distinct identifiers, the place at which an identifier is found
/// is its place.
pub proof fn lemma_index_of(rows: Seq<Entry>, id: u128, at: int)
    requires
        distinct_ids(rows),
        0 <= at < rows.len(),
        rows[at].id == id,
    ensures
        has_id(rows, id),
        index_of(rows, id) == at,
{
    let found = index_of(rows, id);
    assert(0 <= found < rows.len() && rows[found].id == id);
    if found < at {
        assert(rows[found].id != rows[at].id);
    } else if at < found {
        assert(rows[at].id != rows[found].id);
    }
}

/// The rows after a delete, place by place.
pub proof fn lemma_deleted_rows(rows: Seq<Entry>, at: int)
    requires
        0 <= at < rows.len(),
    ensures
        deleted(rows, at).len() == rows.len() - 1,
        delete_dependents(rows, at).len() == rows.len() - 1 - at,
        forall|i: int| 0 <= i < at ==> (#[trigger] deleted(rows, at)[i]) == rows[i],
        forall|i: int|
            at <= i < rows.len() - 1 ==> (#[trigger] deleted(rows, at)[i]) == delete_dependents(
                rows,
                at,
            )[i - at],
        forall|k: int|
            0 <= k < rows.len() - 1 - at ==> {
                let row = #[trigger] delete_dependents(rows, at)[k];
                &&& row.id == rows[at + 1 + k].id
                &&& row.scope_id == rows[at + 1 + k].scope_id
                &&& row.date == rows[at + 1 + k].date
                &&& row.amount == rows[at + 1 + k].amount
                &&& row.ref_no == rows[at + 1 + k].ref_no
                &&& row.description == rows[at + 1 + k].description
                &&& row.balance == running_balance(
                    rows.skip(at + 1),
                    balance_without(rows, at),
                    k + 1,
                ) as i64
                &&& row.sequence_number == (rows[at + 1 + k].sequence_number - 1) as i64
            },
{
}

/// A delete leaves a well-formed ledger.
pub proof fn lemma_deleted_wf(rows: Seq<Entry>, scope: u128, at: int)
    requires
        rows_wf(rows, scope),
        0 <= at < rows.len(),
    ensures
        rows_wf(deleted(rows, at), scope),
{
    let out = deleted(rows, at);
    let dependents = delete_dependents(rows, at);
    lemma_deleted_rows(rows, at);
    assert forall|i: int| 0 <= i < out.len() implies (#[trigger] out[i]).scope_id == scope
        && out[i].sequence_number >= 1 by {
        if i < at {
            assert(out[i] == rows[i]);
        } else {
            assert(out[i] == dependents[i - at]);
            assert(rows[at + 1 + (i - at)].scope_id == scope);
            assert(rows[at].sequence_number < rows[i + 1].sequence_number);
        }
    }
    assert forall|i: int, j: int| 0 <= i < j < out.len() implies (
    #[trigger] out[i]).sequence_number < (#[trigger] out[j]).sequence_number by {
        assert(out[j] == dependents[j - at] || out[j] == rows[j]);
        assert(out[i] == dependents[i - at] || out[i] == rows[i]);
        if i < at {
            if j < at {
                assert(rows[i].sequence_number < rows[j].sequence_number);
            } else {
                assert(rows[i].sequence_number < rows[at].sequence_number);
                assert(rows[at].sequence_number < rows[at + 1 + (j - at)].sequence_number);
            }
        } else {
            assert(rows[at + 1 + (i - at)].sequence_number < rows[at + 1 + (j
                - at)].sequence_number);
            assert(rows[at].sequence_number < rows[at + 1 + (i - at)].sequence_number);
        }
    }
    assert forall|i: int, j: int| 0 <= i < j < out.len() implies (#[trigger] out[i]).id != (
    #[trigger] out[j]).id by {
        assert(out[j] == dependents[j - at] || out[j] == rows[j]);
        assert(out[i] == dependents[i - at] || out[i] == rows[i]);
        if i < at {
            if j < at {
                assert(rows[i].id != rows[j].id);
            } else {
                assert(rows[i].id != rows[at + 1 + (j - at)].id);
            }
        } else {
            assert(rows[at + 1 + (i - at)].id != rows[at + 1 + (j - at)].id);
        }
    }
}

/// Deletes the row with `id`: recalculates the balances of the rows above
/// it from the balance that stood before it, moves each of them down by
/// one number, and yields the writes in the order in which a store can
/// perform them without two rows ever sharing a number. A refused delete
/// leaves the rows as they were.
pub(crate) fn delete_entry(rows: &mut Vec<Entry>, scope: u128, id: u128) -> (result: Result<
    Vec<RowChange>,
    LedgerError,
>)
    requires
        rows_wf(old(rows)@, scope),
    ensures
        rows_wf(final(rows)@, scope),
        match delete_refusal(old(rows)@, id) {
            Some(error) => result == Err::<Vec<RowChange>, LedgerError>(error) && *final(rows)
                == *old(rows),
            None => result is Ok && result.unwrap()@ == delete_changes(
                old(rows)@,
                index_of(old(rows)@, id),
            ) && final(rows)@ == deleted(old(rows)@, index_of(old(rows)@, id)),
        },
{
    let ghost before = rows@;
    let at: usize = match find_by_id(rows, id) {
        Some(at) => at,
        None => {
            return Err(LedgerError::NotFound);
        },
    };
    proof {
        lemma_index_of(before, id, at as int);
    }
    let start: i64 = match rows[at].balance.checked_sub(rows[at].amount) {
        Some(balance) => balance,
        None => {
            return Err(LedgerError::ValidationFailure);
        },
    };
    let len: usize = rows.len();
    let ghost tail = before.skip(at + 1);
    let updates: Vec<(u128, i64)> = {
        let dependents = vstd::slice::slice_subrange(rows.as_slice(), at + 1, len);
        assert(dependents@ =~= tail);
        match recalculate_balance(dependents, start) {
            Ok(updates) => updates,
            Err(_) => {
                return Err(LedgerError::ValidationFailure);
            },
        }
    };
    proof {
        assert(delete_refusal(before, id) is None);
        lemma_deleted_rows(before, at as int);
    }
    let ghost dependents = delete_dependents(before, at as int);
    let mut changes: Vec<RowChange> = Vec::new();
    changes.push(RowChange::Delete { id });
    let _ = rows.remove(at);
    let n: usize = len - 1 - at;
    let mut j: usize = 0;
    while j < n
        invariant
            j <= n,
            at + 1 + n == len,
            rows@.len() == len - 1,
            before.len() == len,
            rows_wf(before, scope),
            updates@ == recalculated(tail, start as int),
            tail == before.skip(at + 1),
            start == balance_without(before, at as int),
            dependents == delete_dependents(before, at as int),
            dependents.len() == n,
            changes@ == seq![RowChange::Delete { id }] + updates_ascending(dependents).take(
                j as int,
            ),
            forall|i: int| 0 <= i < at ==> (#[trigger] rows@[i]) == before[i],
            forall|i: int| at <= i < at + j ==> (#[trigger] rows@[i]) == dependents[i - at],
            forall|i: int| at + j <= i < len - 1 ==> (#[trigger] rows@[i]) == before[i + 1],
        decreases n - j,
    {
        assert(rows@[at + j] == before[at + j + 1]);
        assert(before[at + 1 + j].sequence_number >= 1);
        assert(tail[j as int] == before[at + 1 + j]);
        rows[at + j].balance = updates[j].1;
        let number: i64 = rows[at + j].sequence_number;
        rows[at + j].sequence_number = number - 1;
        assert(rows@[at + j] == dependents[j as int]);
        let row = &rows[at + j];
        changes.push(
            RowChange::Update {
                id: row.id,
                sequence_number: row.sequence_number,
                balance: row.balance,
            },
        );
        assert(changes@ =~= seq![RowChange::Delete { id }] + updates_ascending(dependents).take(
            j + 1,
        ));
        j = j + 1;
    }
    proof {
        assert(updates_ascending(dependents).take(n as int) =~= updates_ascending(dependents));
        assert(rows@ =~= deleted(before, at as int));
        lemma_deleted_wf(before, scope, at as int);
    }
    Ok(changes)
}

/// Recalculates the balances from the first row numbered `sequence_number`
/// or above, starting from the balance of the row before it (zero where
/// there is none), and yields one write per recalculated row, lowest
/// number first. Where a balance cannot be stored the rows stay as they
/// were.
pub(crate) fn rebalance_entries(rows: &mut Vec<Entry>, scope: u128, sequence_number: i64) -> (result:
    Result<Vec<RowChange>, LedgerError>)
    requires
        rows_wf(old(rows)@, scope),
    ensures
        rows_wf(final(rows)@, scope),
        rebalance_fits(old(rows)@, sequence_number as int) ==> result is Ok && final(rows)@
            == rebalanced_from(old(rows)@, sequence_number as int) && result.unwrap()@
            == updates_ascending(
            final(rows)@.skip(split_index(old(rows)@, sequence_number as int)),
        ),
        !rebalance_fits(old(rows)@, sequence_number as int) ==> result == Err::<
            Vec<RowChange>,
            LedgerError,
        >(LedgerError::ValidationFailure) && *final(rows) == *old(rows),
{
    let ghost before = rows@;
    let at: usize = split_point(rows, sequence_number);
    let start: i64 = if at == 0 {
        0
    } else {
        rows[at - 1].balance
    };
    let len: usize = rows.len();
    let ghost tail = before.skip(at as int);
    let updates: Vec<(u128, i64)> = {
        let dependents = vstd::slice::slice_subrange(rows.as_slice(), at, len);
        assert(dependents@ =~= tail);
        match recalculate_balance(dependents, start) {
            Ok(updates) => updates,
            Err(_) => {
                return Err(LedgerError::ValidationFailure);
            },
        }
    };
    let ghost target = rebalanced(tail, start as int);
    let mut changes: Vec<RowChange> = Vec::new();
    let n: usize = len - at;
    let mut j: usize = 0;
    while j < n
        invariant
            j <= n,
            at + n == len,
            rows@.len() == len,
            before.len() == len,
            updates@ == recalculated(tail, start as int),
            tail == before.skip(at as int),
            target == rebalanced(tail, start as int),
            changes@ == updates_ascending(target).take(j as int),
            forall|i: int| 0 <= i < at ==> (#[trigger] rows@[i]) == before[i],
            forall|i: int| at <= i < at + j ==> (#[trigger] rows@[i]) == target[i - at],
            forall|i: int| at + j <= i < len ==> (#[trigger] rows@[i]) == before[i],
        decreases n - j,
    {
        assert(rows@[at + j] == before[at + j]);
        assert(tail[j as int] == before[at + j]);
        rows[at + j].balance = updates[j].1;
        assert(rows@[at + j] == target[j as int]);
        let row = &rows[at + j];
        changes.push(
            RowChange::Update {
                id: row.id,
                sequence_number: row.sequence_number,
                balance: row.balance,
            },
        );
        assert(changes@ =~= updates_ascending(target).take(j + 1));
        j = j + 1;
    }
    proof {
        assert(updates_ascending(target).take(n as int) =~= updates_ascending(target));
        assert(rows@ =~= rebalanced_from(before, sequence_number as int));
        assert(rows@.skip(at as int) =~= target);
        lemma_same_keys_wf(before, rows@, scope);
    }
    Ok(changes)
}

/// Rows that differ from well-formed rows in dates, amounts, balances and
/// texts only are well formed.
pub proof fn lemma_same_keys_wf(before: Seq<Entry>, after: Seq<Entry>, scope: u128)
    requires
        rows_wf(before, scope),
        after.len() == before.len(),
        forall|i: int|
            0 <= i < before.len() ==> (#[trigger] after[i]).id == before[i].id
                && after[i].scope_id == before[i].scope_id && after[i].sequence_number
                == before[i].sequence_number,
    ensures
        rows_wf(after, scope),
{
    assert forall|i: int| 0 <= i < after.len() implies (#[trigger] after[i]).scope_id == scope
        && after[i].sequence_number >= 1 by {
        assert(before[i].scope_id == scope);
    }
    assert forall|i: int, j: int| 0 <= i < j < after.len() implies (
    #[trigger] after[i]).sequence_number < (#[trigger] after[j]).sequence_number by {
        assert(before[i].sequence_number < before[j].sequence_number);
    }
    assert forall|i: int, j: int| 0 <= i < j < after.len() implies (#[trigger] after[i]).id != (
    #[trigger] after[j]).id by {
        assert(before[i].id != before[j].id);
    }
}

} // verus!
