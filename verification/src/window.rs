//! Editing a part of a ledger: the rows from the entry below the edited
//! number on are all that an edit reads and writes, so a store need not
//! load more.

use vstd::prelude::*;
use crate::balance::balance_before;
use crate::entry::Entry;
use crate::ledger::{lower, moved, patched, update_changes, update_refusal, updated, EntryPatch};
use crate::sequence::{
    ascending, delete_changes, delete_dependents, delete_refusal, deleted, has_id, index_of,
    insert_changes, insert_dependents, insert_refusal, inserted, lemma_deleted_rows,
    lemma_deleted_wf, lemma_index_of, lemma_inserted_rows, lemma_inserted_wf, lemma_run_length,
    lemma_run_length_is, lemma_split_index, lemma_split_index_parts, placed_balance,
    rebalance_fits, rebalanced_from, rows_wf, run_length, split_index,
};

verus! {

/// The window reaches far enough down for an edit at `number`: it holds
/// all rows, or it begins with a row numbered below `number`, so that the
/// entry below the edited number is in it.
pub open spec fn reaches_below(before: Seq<Entry>, window: Seq<Entry>, number: int) -> bool {
    before.len() == 0 || (window.len() > 0 && window[0].sequence_number < number)
}

/// The number that an edited entry gets: the new one where the patch
/// gives one, else the old one.
pub open spec fn patched_number(old_number: i64, patch: EntryPatch) -> i64 {
    match patch.sequence_number {
        Some(number) => number,
        None => old_number,
    }
}

/// The number from which on the rows of a scope are needed for the edit
/// of an entry, together with the one row below that number: the lower of
/// the entry's old number and its new one. An insert needs the rows from
/// its requested number on, a delete those from the number of the entry
/// that goes.
pub fn update_window_start(old_number: i64, patch: &EntryPatch) -> (start: i64)
    ensures
        start == lower(old_number as int, patched_number(old_number, *patch) as int),
{
    match patch.sequence_number {
        Some(number) => if number < old_number {
            number
        } else {
            old_number
        },
        None => old_number,
    }
}

/// The rows of a window are well formed where the whole is.
pub proof fn lemma_window_wf(before: Seq<Entry>, window: Seq<Entry>, scope: u128)
    requires
        rows_wf(before + window, scope),
    ensures
        rows_wf(window, scope),
{
    let rows = before + window;
    let n = before.len() as int;
    assert forall|i: int| 0 <= i < window.len() implies (#[trigger] window[i]).scope_id == scope
        && window[i].sequence_number >= 1 by {
        assert(rows[n + i] == window[i]);
    }
    assert forall|i: int, j: int| 0 <= i < j < window.len() implies (
    #[trigger] window[i]).sequence_number < (#[trigger] window[j]).sequence_number by {
        assert(rows[n + i] == window[i] && rows[n + j] == window[j]);
        assert(rows[n + i].sequence_number < rows[n + j].sequence_number);
    }
    assert forall|i: int, j: int| 0 <= i < j < window.len() implies (#[trigger] window[i]).id != (
    #[trigger] window[j]).id by {
        assert(rows[n + i] == window[i] && rows[n + j] == window[j]);
        assert(rows[n + i].id != rows[n + j].id);
    }
}

/// In a window that reaches below a number, the place for that number
/// and the balance before it are those of the whole.
pub proof fn lemma_split_in_window(before: Seq<Entry>, window: Seq<Entry>, number: int)
    requires
        ascending(before + window),
        ascending(window),
        reaches_below(before, window, number),
    ensures
        split_index(before + window, number) == before.len() + split_index(window, number),
        balance_before(before + window, 0, split_index(before + window, number))
            == balance_before(window, 0, split_index(window, number)),
        (before + window).skip(split_index(before + window, number)) == window.skip(
            split_index(window, number),
        ),
        (before + window).take(split_index(before + window, number)) == before + window.take(
            split_index(window, number),
        ),
        before.len() > 0 ==> split_index(window, number) >= 1,
{
    let rows = before + window;
    let n = before.len() as int;
    let place = split_index(window, number);
    lemma_split_index_parts(window, number);
    if n == 0 {
        assert(rows =~= window);
        assert(before + window.take(place) =~= window.take(place));
    } else {
        if place == 0 {
            assert(window[0].sequence_number >= number);
        }
        assert(rows[n] == window[0]);
        assert forall|i: int| 0 <= i < n + place implies (#[trigger] rows[i]).sequence_number
            < number by {
            if i < n {
                assert(rows[i].sequence_number < rows[n].sequence_number);
            } else {
                assert(rows[i] == window[i - n]);
            }
        }
        assert forall|i: int| n + place <= i < rows.len() implies (
        #[trigger] rows[i]).sequence_number >= number by {
            assert(rows[i] == window[i - n]);
        }
        lemma_split_index(rows, number, n + place);
        assert(rows[n + place - 1] == window[place - 1]);
        assert(rows.skip(n + place) =~= window.skip(place));
        assert(rows.take(n + place) =~= before + window.take(place));
    }
}

/// An identifier that no row before the window holds is held by the whole
/// exactly where the window holds it.
pub proof fn lemma_id_in_window(before: Seq<Entry>, window: Seq<Entry>, id: u128)
    requires
        !has_id(before, id),
    ensures
        has_id(before + window, id) == has_id(window, id),
{
    let rows = before + window;
    let n = before.len() as int;
    if has_id(window, id) {
        let i = choose|i: int| 0 <= i < window.len() && (#[trigger] window[i]).id == id;
        assert(rows[n + i].id == id);
    }
    if has_id(rows, id) {
        let i = choose|i: int| 0 <= i < rows.len() && (#[trigger] rows[i]).id == id;
        if i < n {
            assert(before[i].id == id);
        } else {
            assert(window[i - n].id == id);
        }
    }
}

/// An insert reads and writes no row below the entry under its requested
/// number: on a window that reaches below that number it is refused
/// exactly where it is refused on the whole, it yields the same row
/// writes, and it leaves the rows before the window as they are.
pub proof fn law_insert_on_window(
    before: Seq<Entry>,
    window: Seq<Entry>,
    scope: u128,
    entry: Entry,
)
    requires
        rows_wf(before + window, scope),
        reaches_below(before, window, entry.sequence_number as int),
        !has_id(before, entry.id),
    ensures
        insert_refusal(before + window, scope, entry) == insert_refusal(window, scope, entry),
        insert_dependents(before + window, entry) == insert_dependents(window, entry),
        insert_changes(before + window, entry) == insert_changes(window, entry),
        inserted(before + window, entry) == before + inserted(window, entry),
{
    let rows = before + window;
    let n = before.len() as int;
    let number = entry.sequence_number as int;
    let place = split_index(window, number);
    lemma_window_wf(before, window, scope);
    lemma_split_in_window(before, window, number);
    lemma_split_index_parts(window, number);
    lemma_id_in_window(before, window, entry.id);
    assert(placed_balance(rows, entry) == placed_balance(window, entry));
    lemma_run_length(window, place, number);
    let count = run_length(window, place, number);
    assert forall|j: int| 0 <= j < count implies (#[trigger] rows[n + place + j]).sequence_number
        == number + j by {
        assert(rows[n + place + j] == window[place + j]);
    }
    if n + place + count < rows.len() {
        assert(rows[n + place + count] == window[place + count]);
    }
    lemma_run_length_is(rows, n + place, number, count);
    assert(inserted(rows, entry) =~= before + inserted(window, entry));
}

/// A delete reads and writes no row below the entry that goes: on a
/// window that holds that entry it is refused exactly where it is refused
/// on the whole, it yields the same row writes, and it leaves the rows
/// before the window as they are.
pub proof fn law_delete_on_window(before: Seq<Entry>, window: Seq<Entry>, scope: u128, id: u128)
    requires
        rows_wf(before + window, scope),
        has_id(window, id),
    ensures
        index_of(before + window, id) == before.len() + index_of(window, id),
        delete_refusal(before + window, id) == delete_refusal(window, id),
        delete_changes(before + window, index_of(before + window, id)) == delete_changes(
            window,
            index_of(window, id),
        ),
        deleted(before + window, index_of(before + window, id)) == before + deleted(
            window,
            index_of(window, id),
        ),
{
    let rows = before + window;
    let n = before.len() as int;
    let at = index_of(window, id);
    assert(0 <= at < window.len() && window[at].id == id);
    assert(rows[n + at] == window[at]);
    lemma_index_of(rows, id, n + at);
    assert(rows.skip(n + at + 1) =~= window.skip(at + 1));
    assert(delete_dependents(rows, n + at) == delete_dependents(window, at));
    assert(deleted(rows, n + at) =~= before + deleted(window, at));
}

/// A recalculation from a number on reads and writes no row below the
/// entry under that number.
pub proof fn law_rebalance_on_window(
    before: Seq<Entry>,
    window: Seq<Entry>,
    scope: u128,
    sequence_number: int,
)
    requires
        rows_wf(before + window, scope),
        reaches_below(before, window, sequence_number),
    ensures
        rebalance_fits(before + window, sequence_number) == rebalance_fits(
            window,
            sequence_number,
        ),
        rebalanced_from(before + window, sequence_number) == before + rebalanced_from(
            window,
            sequence_number,
        ),
        rebalanced_from(before + window, sequence_number).skip(
            split_index(before + window, sequence_number),
        ) == rebalanced_from(window, sequence_number).skip(split_index(window, sequence_number)),
{
    let rows = before + window;
    lemma_window_wf(before, window, scope);
    lemma_split_in_window(before, window, sequence_number);
    lemma_split_index_parts(window, sequence_number);
    lemma_split_index_parts(rows, sequence_number);
    assert(rebalanced_from(rows, sequence_number) =~= before + rebalanced_from(
        window,
        sequence_number,
    ));
    assert(rebalanced_from(rows, sequence_number).skip(split_index(rows, sequence_number))
        =~= rebalanced_from(window, sequence_number).skip(split_index(window, sequence_number)));
}

/// An edit reads and writes no row below the entry under the lower of the
/// old and the new number: on a window that holds the edited entry and
/// reaches below that number it is refused exactly where it is refused on
/// the whole, it yields the same row writes, and it leaves the rows before
/// the window as they are.
pub proof fn law_update_on_window(
    before: Seq<Entry>,
    window: Seq<Entry>,
    scope: u128,
    id: u128,
    patch: EntryPatch,
)
    requires
        rows_wf(before + window, scope),
        has_id(window, id),
        reaches_below(
            before,
            window,
            lower(
                window[index_of(window, id)].sequence_number as int,
                patched_number(window[index_of(window, id)].sequence_number, patch) as int,
            ),
        ),
    ensures
        update_refusal(before + window, scope, id, patch) == update_refusal(
            window,
            scope,
            id,
            patch,
        ),
        update_refusal(window, scope, id, patch) is None ==> update_changes(
            before + window,
            index_of(before + window, id),
            patch,
        ) == update_changes(window, index_of(window, id), patch) && updated(
            before + window,
            index_of(before + window, id),
            patch,
        ) == before + updated(window, index_of(window, id), patch),
{
    let rows = before + window;
    let n = before.len() as int;
    let at = index_of(window, id);
    assert(0 <= at < window.len() && window[at].id == id);
    let entry = patched(window[at], patch);
    let lowest = lower(window[at].sequence_number as int, entry.sequence_number as int);
    lemma_window_wf(before, window, scope);
    law_delete_on_window(before, window, scope, id);
    assert(rows[n + at] == window[at]);
    let rest = deleted(window, at);
    lemma_deleted_wf(rows, scope, n + at);
    lemma_deleted_rows(window, at);
    assert(!has_id(before, id)) by {
        if has_id(before, id) {
            let i = choose|i: int| 0 <= i < before.len() && (#[trigger] before[i]).id == id;
            assert(rows[i] == before[i]);
            assert(rows[i].id != rows[n + at].id);
        }
    }
    if n > 0 {
        assert(at >= 1);
        assert(rest[0] == window[0]);
    }
    assert(reaches_below(before, rest, entry.sequence_number as int));
    law_insert_on_window(before, rest, scope, entry);
    if insert_refusal(rest, scope, entry) is None {
        let between = moved(window, at, patch);
        lemma_window_wf(before, rest, scope);
        lemma_inserted_wf(before + rest, scope, entry);
        lemma_inserted_rows(rest, entry);
        lemma_split_index_parts(rest, entry.sequence_number as int);
        if n > 0 {
            assert(split_index(rest, entry.sequence_number as int) >= 1);
            assert(between[0] == rest[0]);
        }
        assert(reaches_below(before, between, lowest));
        law_rebalance_on_window(before, between, scope, lowest);
    }
}

} // verus!
