//! What holds of the ledger's operations: well-formedness, the prefix-sum
//! rule, and write lists that never collide.

use vstd::prelude::*;
use crate::balance::{
    balance_before, lemma_rebalance_chained, lemma_rebalanced_is_chained, prefix_sums_hold,
    rebalanced,
};
use crate::changes::{inserts_of, updates_ascending, updates_descending, RowChange};
use crate::entry::Entry;
use crate::ledger::{
    batch_refusal, batch_rows, lemma_extended_wf, lemma_high_water_mark, lower, moved, patched,
    promoted, promotion_refusal, update_changes, update_refusal, updated, EntryPatch,
};
use crate::replay::{
    apply_change, apply_changes, hybrid, lemma_apply_change_keeps_order, lemma_apply_changes_concat,
    lemma_apply_single, lemma_replay_ascending, lemma_replay_descending, same_but_position,
};
use crate::sequence::{
    ascending, delete_changes, delete_dependents, delete_refusal, deleted, distinct_ids, has_id,
    has_sequence_number, high_water_mark, index_of, insert_changes, insert_dependents,
    insert_refusal, inserted, lemma_after_run, lemma_deleted_rows, lemma_deleted_wf, lemma_index_of,
    lemma_inserted_rows, lemma_inserted_wf, lemma_run_length, lemma_same_keys_wf, lemma_split_index,
    lemma_split_index_parts, placed, placed_balance, rebalance_fits, rebalanced_from, rows_wf,
    run_length, split_index, balance_without,
};

verus! {

/// The rows of an insert's dependents, put where they stood before the
/// new entry came between: the rows below the requested number, then the
/// dependents.
pub open spec fn insert_shifted(rows: Seq<Entry>, entry: Entry) -> Seq<Entry> {
    rows.take(split_index(rows, entry.sequence_number as int)) + insert_dependents(rows, entry)
}

/// The dependents of an insert differ from the old rows in number and
/// balance only, stand at their old numbers or one above, and leave the
/// requested number free.
pub proof fn lemma_insert_shifted(rows: Seq<Entry>, scope: u128, entry: Entry)
    requires
        rows_wf(rows, scope),
        insert_refusal(rows, scope, entry) is None,
    ensures
        insert_shifted(rows, entry).len() == rows.len(),
        ascending(insert_shifted(rows, entry)),
        distinct_ids(insert_shifted(rows, entry)),
        forall|i: int|
            0 <= i < rows.len() ==> same_but_position(
                rows[i],
                #[trigger] insert_shifted(rows, entry)[i],
            ) && insert_shifted(rows, entry)[i].sequence_number >= rows[i].sequence_number,
        forall|i: int|
            0 <= i < split_index(rows, entry.sequence_number as int) ==> rows[i]
                == #[trigger] insert_shifted(rows, entry)[i],
        forall|i: int|
            0 <= i < split_index(rows, entry.sequence_number as int) ==> (
            #[trigger] insert_shifted(rows, entry)[i]).sequence_number < entry.sequence_number,
        forall|i: int|
            split_index(rows, entry.sequence_number as int) <= i < rows.len() ==> (
            #[trigger] insert_shifted(rows, entry)[i]).sequence_number > entry.sequence_number,
        !has_id(insert_shifted(rows, entry), entry.id),
{
    let number = entry.sequence_number as int;
    let at = split_index(rows, number);
    let count = run_length(rows, at, number);
    let out = inserted(rows, entry);
    let shifted = insert_shifted(rows, entry);
    let dependents = insert_dependents(rows, entry);
    lemma_split_index_parts(rows, number);
    lemma_run_length(rows, at, number);
    lemma_inserted_rows(rows, entry);
    lemma_inserted_wf(rows, scope, entry);
    assert(out[at] == placed(rows, entry));
    assert forall|i: int| 0 <= i < rows.len() implies same_but_position(
        rows[i],
        #[trigger] shifted[i],
    ) && shifted[i].sequence_number >= rows[i].sequence_number by {
        if i >= at {
            let k = i - at;
            assert(shifted[i] == dependents[k]);
            assert(rows[at + k] == rows[i]);
            if k < count {
                assert(rows[at + k].sequence_number == number + k);
            }
        }
    }
    assert forall|i: int| 0 <= i < at implies (#[trigger] shifted[i]).sequence_number
        < entry.sequence_number by {
        assert(shifted[i] == rows[i]);
    }
    assert forall|i: int| at <= i < rows.len() implies (#[trigger] shifted[i]).sequence_number
        > entry.sequence_number by {
        assert(shifted[i] == dependents[i - at]);
        assert(out[i + 1] == dependents[i + 1 - 1 - at]);
        assert(out[at].sequence_number < out[i + 1].sequence_number);
    }
    assert forall|i: int, j: int| 0 <= i < j < shifted.len() implies (
    #[trigger] shifted[i]).sequence_number < (#[trigger] shifted[j]).sequence_number by {
        if j < at {
            assert(rows[i].sequence_number < rows[j].sequence_number);
        } else if i >= at {
            assert(out[i + 1] == dependents[i + 1 - 1 - at]);
            assert(out[j + 1] == dependents[j + 1 - 1 - at]);
            assert(out[i + 1].sequence_number < out[j + 1].sequence_number);
        }
    }
    assert forall|i: int, j: int| 0 <= i < j < shifted.len() implies (#[trigger] shifted[i]).id
        != (#[trigger] shifted[j]).id by {
        assert(rows[i].id != rows[j].id);
        assert(same_but_position(rows[i], shifted[i]));
        assert(same_but_position(rows[j], shifted[j]));
    }
    assert(!has_id(shifted, entry.id)) by {
        if has_id(shifted, entry.id) {
            let i = choose|i: int| 0 <= i < shifted.len() && (#[trigger] shifted[i]).id == entry.id;
            assert(same_but_position(rows[i], shifted[i]));
            assert(rows[i].id == entry.id);
        }
    }
}

/// The writes of an insert never collide: a store that refuses every write
/// that would give two rows one number accepts them all, in the order
/// given, and ends with the rows of the ledger after the insert.
pub proof fn law_insert_writes_replay(rows: Seq<Entry>, scope: u128, entry: Entry)
    requires
        rows_wf(rows, scope),
        insert_refusal(rows, scope, entry) is None,
    ensures
        apply_changes(rows, insert_changes(rows, entry)) == Some(inserted(rows, entry)),
{
    let number = entry.sequence_number as int;
    let at = split_index(rows, number);
    let shifted = insert_shifted(rows, entry);
    let dependents = insert_dependents(rows, entry);
    let updates = updates_descending(dependents);
    let last = seq![RowChange::Insert(placed(rows, entry))];
    lemma_split_index_parts(rows, number);
    lemma_insert_shifted(rows, scope, entry);
    lemma_inserted_rows(rows, entry);
    assert(hybrid(rows, shifted, rows.len() as int) =~= rows);
    assert(shifted.subrange(at, rows.len() as int) =~= dependents);
    lemma_replay_descending(rows, shifted, at, rows.len() as int);
    assert(apply_changes(rows, updates) == Some(shifted));
    lemma_split_index(shifted, number, at);
    assert(!has_sequence_number(shifted, number)) by {
        if has_sequence_number(shifted, number) {
            let i = choose|i: int|
                0 <= i < shifted.len() && (#[trigger] shifted[i]).sequence_number == number;
            assert(shifted[i].sequence_number != number);
        }
    }
    assert(shifted.insert(at, placed(rows, entry)) =~= inserted(rows, entry));
    lemma_apply_single(shifted, RowChange::Insert(placed(rows, entry)));
    lemma_apply_changes_concat(rows, updates, last);
    assert(updates + last =~= insert_changes(rows, entry));
}

/// The writes of a delete never collide: the store accepts them all, in
/// the order given, and ends with the rows of the ledger after the delete.
pub proof fn law_delete_writes_replay(rows: Seq<Entry>, scope: u128, id: u128)
    requires
        rows_wf(rows, scope),
        delete_refusal(rows, id) is None,
    ensures
        apply_changes(rows, delete_changes(rows, index_of(rows, id))) == Some(
            deleted(rows, index_of(rows, id)),
        ),
{
    let at = index_of(rows, id);
    assert(0 <= at < rows.len() && rows[at].id == id);
    let out = deleted(rows, at);
    let dependents = delete_dependents(rows, at);
    let rest = rows.remove(at);
    let first = seq![RowChange::Delete { id }];
    let updates = updates_ascending(dependents);
    lemma_deleted_rows(rows, at);
    lemma_deleted_wf(rows, scope, at);
    lemma_apply_single(rows, RowChange::Delete { id });
    assert(apply_changes(rows, first) == Some(rest));
    assert forall|i: int, j: int| 0 <= i < j < rest.len() implies (
    #[trigger] rest[i]).sequence_number < (#[trigger] rest[j]).sequence_number by {
        let a = if i < at { i } else { i + 1 };
        let b = if j < at { j } else { j + 1 };
        assert(rest[i] == rows[a] && rest[j] == rows[b]);
        assert(rows[a].sequence_number < rows[b].sequence_number);
    }
    assert forall|i: int, j: int| 0 <= i < j < rest.len() implies (#[trigger] rest[i]).id != (
    #[trigger] rest[j]).id by {
        let a = if i < at { i } else { i + 1 };
        let b = if j < at { j } else { j + 1 };
        assert(rest[i] == rows[a] && rest[j] == rows[b]);
        assert(rows[a].id != rows[b].id);
    }
    assert forall|i: int| 0 <= i < rest.len() implies same_but_position(
        rest[i],
        #[trigger] out[i],
    ) && out[i].sequence_number <= rest[i].sequence_number by {
        if i >= at {
            assert(out[i] == dependents[i - at]);
            assert(rest[i] == rows[at + 1 + (i - at)]);
            assert(rows[i + 1].sequence_number >= 1);
        } else {
            assert(out[i] == rows[i]);
        }
    }
    assert(hybrid(out, rest, at) =~= rest);
    assert(out.skip(at) =~= dependents);
    lemma_replay_ascending(rest, out, at);
    lemma_apply_changes_concat(rows, first, updates);
    assert(first + updates =~= delete_changes(rows, at));
}

/// The writes of a recalculation change balances only, and the store
/// accepts them all.
pub proof fn law_rebalance_writes_replay(rows: Seq<Entry>, scope: u128, sequence_number: int)
    requires
        rows_wf(rows, scope),
    ensures
        apply_changes(
            rows,
            updates_ascending(
                rebalanced_from(rows, sequence_number).skip(split_index(rows, sequence_number)),
            ),
        ) == Some(rebalanced_from(rows, sequence_number)),
{
    let at = split_index(rows, sequence_number);
    let out = rebalanced_from(rows, sequence_number);
    lemma_split_index_parts(rows, sequence_number);
    assert forall|i: int| 0 <= i < rows.len() implies same_but_position(
        rows[i],
        #[trigger] out[i],
    ) && out[i].sequence_number <= rows[i].sequence_number by {
        if i >= at {
            assert(rows.skip(at)[i - at] == rows[i]);
        }
    }
    assert forall|i: int, j: int| 0 <= i < j < out.len() implies (
    #[trigger] out[i]).sequence_number < (#[trigger] out[j]).sequence_number by {
        assert(same_but_position(rows[i], out[i]));
        assert(same_but_position(rows[j], out[j]));
        assert(rows[i].sequence_number < rows[j].sequence_number);
    }
    assert(hybrid(out, rows, at) =~= rows);
    lemma_replay_ascending(rows, out, at);
}

/// No two rows ever share a sequence number, at any step: where the store
/// accepts a list of writes, it accepts every part of the list from its
/// start, and after each single write its rows are in strictly ascending
/// order of their numbers and hold no identifier twice.
pub proof fn law_every_step_unique(rows: Seq<Entry>, changes: Seq<RowChange>, steps: int)
    requires
        ascending(rows),
        distinct_ids(rows),
        apply_changes(rows, changes) is Some,
        0 <= steps <= changes.len(),
    ensures
        apply_changes(rows, changes.take(steps)) is Some,
        ascending(apply_changes(rows, changes.take(steps)).unwrap()),
        distinct_ids(apply_changes(rows, changes.take(steps)).unwrap()),
    decreases steps,
{
    let part = changes.take(steps);
    if steps > 0 {
        assert(part[0] == changes[0]);
        assert(part.drop_first() =~= changes.drop_first().take(steps - 1));
        let next = apply_change(rows, changes[0]).unwrap();
        lemma_apply_change_keeps_order(rows, changes[0]);
        law_every_step_unique(next, changes.drop_first(), steps - 1);
    }
}

/// The shift of an insert stops at the first gap: a row at or above the
/// requested number moves up by one exactly where every number from the
/// requested one up to its own is in use; a row behind a free number
/// keeps its number.
pub proof fn law_shift_stops_at_gap(rows: Seq<Entry>, scope: u128, entry: Entry, place: int)
    requires
        rows_wf(rows, scope),
        insert_refusal(rows, scope, entry) is None,
        0 <= place < rows.len() - split_index(rows, entry.sequence_number as int),
    ensures
        ({
            let at = split_index(rows, entry.sequence_number as int);
            let old_number = rows[at + place].sequence_number;
            let new_number = insert_dependents(rows, entry)[place].sequence_number;
            let all_in_use = forall|number: int|
                entry.sequence_number <= number <= old_number ==> has_sequence_number(rows, number);
            &&& all_in_use ==> new_number == old_number + 1
            &&& !all_in_use ==> new_number == old_number
        }),
{
    let first = entry.sequence_number as int;
    let at = split_index(rows, first);
    let count = run_length(rows, at, first);
    let old_number = rows[at + place].sequence_number;
    lemma_split_index_parts(rows, first);
    lemma_run_length(rows, at, first);
    lemma_after_run(rows, at, first);
    lemma_inserted_rows(rows, entry);
    if place < count {
        assert(rows[at + place].sequence_number == first + place);
        assert forall|number: int| first <= number <= old_number implies has_sequence_number(
            rows,
            number,
        ) by {
            let j = number - first;
            assert(rows[at + j].sequence_number == first + j);
        }
    } else {
        let free = first + count;
        assert(rows[at + place].sequence_number > first + count);
        assert(!has_sequence_number(rows, free)) by {
            if has_sequence_number(rows, free) {
                let i = choose|i: int|
                    0 <= i < rows.len() && (#[trigger] rows[i]).sequence_number == free;
                if i < at {
                    assert(rows[i].sequence_number < first);
                } else if i < at + count {
                    assert(rows[at + (i - at)].sequence_number == first + (i - at));
                } else {
                    assert(rows[i].sequence_number > first + count);
                }
            }
        }
    }
}

/// An insert keeps the prefix-sum rule: where every balance was the
/// running sum of the amounts before the insert, it is so after it.
pub proof fn law_insert_keeps_prefix_sums(rows: Seq<Entry>, scope: u128, entry: Entry)
    requires
        rows_wf(rows, scope),
        prefix_sums_hold(rows),
        insert_refusal(rows, scope, entry) is None,
    ensures
        prefix_sums_hold(inserted(rows, entry)),
{
    let number = entry.sequence_number as int;
    let at = split_index(rows, number);
    let out = inserted(rows, entry);
    let tail = rows.skip(at);
    let first = placed_balance(rows, entry);
    let fresh = rebalanced(tail, first);
    let dependents = insert_dependents(rows, entry);
    lemma_split_index_parts(rows, number);
    lemma_inserted_rows(rows, entry);
    lemma_rebalanced_is_chained(tail, first);
    assert forall|i: int| 0 <= i < out.len() implies out[i].balance == #[trigger] balance_before(
        out,
        0,
        i,
    ) + out[i].amount by {
        if i < at {
            assert(out[i] == rows[i]);
            if i > 0 {
                assert(out[i - 1] == rows[i - 1]);
            }
            assert(rows[i].balance == balance_before(rows, 0, i) + rows[i].amount);
        } else if i == at {
            if at > 0 {
                assert(out[at - 1] == rows[at - 1]);
            }
        } else {
            let k = i - 1 - at;
            assert(out[i] == dependents[k]);
            assert(fresh[k].balance == balance_before(fresh, first, k) + fresh[k].amount);
            assert(dependents[k].balance == fresh[k].balance);
            assert(tail[k] == rows[at + k]);
            if k > 0 {
                assert(out[i - 1] == dependents[k - 1]);
                assert(dependents[k - 1].balance == fresh[k - 1].balance);
            }
        }
    }
}

/// A delete keeps the prefix-sum rule.
pub proof fn law_delete_keeps_prefix_sums(rows: Seq<Entry>, scope: u128, id: u128)
    requires
        rows_wf(rows, scope),
        prefix_sums_hold(rows),
        delete_refusal(rows, id) is None,
    ensures
        prefix_sums_hold(deleted(rows, index_of(rows, id))),
{
    let at = index_of(rows, id);
    assert(0 <= at < rows.len() && rows[at].id == id);
    let out = deleted(rows, at);
    let tail = rows.skip(at + 1);
    let start = balance_without(rows, at);
    let fresh = rebalanced(tail, start);
    let dependents = delete_dependents(rows, at);
    lemma_deleted_rows(rows, at);
    lemma_rebalanced_is_chained(tail, start);
    assert(rows[at].balance == balance_before(rows, 0, at) + rows[at].amount);
    assert forall|i: int| 0 <= i < out.len() implies out[i].balance == #[trigger] balance_before(
        out,
        0,
        i,
    ) + out[i].amount by {
        if i < at {
            assert(out[i] == rows[i]);
            if i > 0 {
                assert(out[i - 1] == rows[i - 1]);
            }
            assert(rows[i].balance == balance_before(rows, 0, i) + rows[i].amount);
        } else {
            let k = i - at;
            assert(out[i] == dependents[k]);
            assert(fresh[k].balance == balance_before(fresh, start, k) + fresh[k].amount);
            assert(dependents[k].balance == fresh[k].balance);
            assert(tail[k] == rows[at + 1 + k]);
            if k > 0 {
                assert(out[i - 1] == dependents[k - 1]);
                assert(dependents[k - 1].balance == fresh[k - 1].balance);
            } else if at > 0 {
                assert(out[at - 1] == rows[at - 1]);
            }
        }
    }
}

/// Where the prefix-sum rule holds, a recalculation finds every balance
/// as it should be: it can always be done, and changes nothing.
pub proof fn law_rebalance_of_consistent_rows(rows: Seq<Entry>, sequence_number: int)
    requires
        ascending(rows),
        prefix_sums_hold(rows),
    ensures
        rebalance_fits(rows, sequence_number),
        rebalanced_from(rows, sequence_number) == rows,
{
    let at = split_index(rows, sequence_number);
    let tail = rows.skip(at);
    let start = balance_before(rows, 0, at);
    lemma_split_index_parts(rows, sequence_number);
    assert forall|k: int| 0 <= k < tail.len() implies tail[k].balance == #[trigger] balance_before(
        tail,
        start,
        k,
    ) + tail[k].amount by {
        assert(tail[k] == rows[at + k]);
        assert(rows[at + k].balance == balance_before(rows, 0, at + k) + rows[at + k].amount);
        if k > 0 {
            assert(tail[k - 1] == rows[at + k - 1]);
        }
    }
    lemma_rebalance_chained(tail, start);
    assert(rows.take(at) + tail =~= rows);
}

/// An edit that is not refused leaves a well-formed ledger.
pub proof fn lemma_updated_wf(rows: Seq<Entry>, scope: u128, id: u128, patch: EntryPatch)
    requires
        rows_wf(rows, scope),
        update_refusal(rows, scope, id, patch) is None,
    ensures
        rows_wf(moved(rows, index_of(rows, id), patch), scope),
        rows_wf(updated(rows, index_of(rows, id), patch), scope),
{
    let at = index_of(rows, id);
    assert(0 <= at < rows.len() && rows[at].id == id);
    let entry = patched(rows[at], patch);
    let lowest = lower(rows[at].sequence_number as int, entry.sequence_number as int);
    lemma_deleted_wf(rows, scope, at);
    lemma_inserted_wf(deleted(rows, at), scope, entry);
    let between = moved(rows, at, patch);
    let out = rebalanced_from(between, lowest);
    lemma_split_index_parts(between, lowest);
    assert forall|i: int| 0 <= i < between.len() implies (#[trigger] out[i]).id == between[i].id
        && out[i].scope_id == between[i].scope_id && out[i].sequence_number
        == between[i].sequence_number by {
        let cut = split_index(between, lowest);
        if i >= cut {
            assert(between.skip(cut)[i - cut] == between[i]);
        }
    }
    lemma_same_keys_wf(between, out, scope);
}

/// After an edit the ledger still holds the entry.
pub proof fn lemma_updated_holds(rows: Seq<Entry>, scope: u128, id: u128, patch: EntryPatch)
    requires
        rows_wf(rows, scope),
        update_refusal(rows, scope, id, patch) is None,
    ensures
        has_id(updated(rows, index_of(rows, id), patch), id),
{
    let at = index_of(rows, id);
    assert(0 <= at < rows.len() && rows[at].id == id);
    let entry = patched(rows[at], patch);
    let lowest = lower(rows[at].sequence_number as int, entry.sequence_number as int);
    let without = deleted(rows, at);
    let between = moved(rows, at, patch);
    lemma_deleted_wf(rows, scope, at);
    lemma_inserted_rows(without, entry);
    let place = split_index(without, entry.sequence_number as int);
    lemma_split_index_parts(without, entry.sequence_number as int);
    assert(between[place].id == id);
    let out = rebalanced_from(between, lowest);
    let cut = split_index(between, lowest);
    lemma_inserted_wf(without, scope, entry);
    lemma_split_index_parts(between, lowest);
    if place >= cut {
        assert(between.skip(cut)[place - cut] == between[place]);
    }
    assert(out[place].id == id);
    assert(updated(rows, at, patch)[place].id == id);
}

/// The writes of an edit never collide: the store accepts them all, in the
/// order given, and ends with the rows of the ledger after the edit.
pub proof fn law_update_writes_replay(rows: Seq<Entry>, scope: u128, id: u128, patch: EntryPatch)
    requires
        rows_wf(rows, scope),
        update_refusal(rows, scope, id, patch) is None,
    ensures
        apply_changes(rows, update_changes(rows, index_of(rows, id), patch)) == Some(
            updated(rows, index_of(rows, id), patch),
        ),
{
    let at = index_of(rows, id);
    assert(0 <= at < rows.len() && rows[at].id == id);
    let entry = patched(rows[at], patch);
    let lowest = lower(rows[at].sequence_number as int, entry.sequence_number as int);
    let without = deleted(rows, at);
    let between = moved(rows, at, patch);
    let first = delete_changes(rows, at);
    let second = insert_changes(without, entry);
    let third = if entry.sequence_number != rows[at].sequence_number {
        updates_ascending(updated(rows, at, patch).skip(split_index(between, lowest)))
    } else {
        Seq::<RowChange>::empty()
    };
    lemma_index_of(rows, id, at);
    lemma_deleted_wf(rows, scope, at);
    lemma_updated_wf(rows, scope, id, patch);
    law_delete_writes_replay(rows, scope, id);
    law_insert_writes_replay(without, scope, entry);
    lemma_apply_changes_concat(rows, first, second);
    assert(apply_changes(rows, first + second) == Some(between));
    if entry.sequence_number != rows[at].sequence_number {
        law_rebalance_writes_replay(between, scope, lowest);
    }
    lemma_apply_changes_concat(rows, first + second, third);
}

/// An edit keeps the prefix-sum rule.
pub proof fn law_update_keeps_prefix_sums(
    rows: Seq<Entry>,
    scope: u128,
    id: u128,
    patch: EntryPatch,
)
    requires
        rows_wf(rows, scope),
        prefix_sums_hold(rows),
        update_refusal(rows, scope, id, patch) is None,
    ensures
        prefix_sums_hold(updated(rows, index_of(rows, id), patch)),
{
    let at = index_of(rows, id);
    assert(0 <= at < rows.len() && rows[at].id == id);
    let entry = patched(rows[at], patch);
    let lowest = lower(rows[at].sequence_number as int, entry.sequence_number as int);
    lemma_index_of(rows, id, at);
    lemma_deleted_wf(rows, scope, at);
    lemma_updated_wf(rows, scope, id, patch);
    law_delete_keeps_prefix_sums(rows, scope, id);
    law_insert_keeps_prefix_sums(deleted(rows, at), scope, entry);
    law_rebalance_of_consistent_rows(moved(rows, at, patch), lowest);
}

/// One edit of a ledger.
pub enum LedgerOp {
    Insert(Entry),
    Update(u128, EntryPatch),
    Delete(u128),
}

/// The rows after one operation. A refused operation leaves them as they
/// were.
pub open spec fn after(rows: Seq<Entry>, scope: u128, op: LedgerOp) -> Seq<Entry> {
    match op {
        LedgerOp::Insert(entry) => if insert_refusal(rows, scope, entry) is None {
            inserted(rows, entry)
        } else {
            rows
        },
        LedgerOp::Update(id, patch) => if update_refusal(rows, scope, id, patch) is None {
            updated(rows, index_of(rows, id), patch)
        } else {
            rows
        },
        LedgerOp::Delete(id) => if delete_refusal(rows, id) is None {
            deleted(rows, index_of(rows, id))
        } else {
            rows
        },
    }
}

/// The rows after a history of operations, performed in order.
pub open spec fn after_all(rows: Seq<Entry>, scope: u128, ops: Seq<LedgerOp>) -> Seq<Entry>
    decreases ops.len(),
{
    if ops.len() == 0 {
        rows
    } else {
        after(after_all(rows, scope, ops.drop_last()), scope, ops.last())
    }
}

/// The row writes of one operation, in the order in which the store
/// performs them. A refused operation writes nothing.
pub open spec fn writes_of(rows: Seq<Entry>, scope: u128, op: LedgerOp) -> Seq<RowChange> {
    match op {
        LedgerOp::Insert(entry) => if insert_refusal(rows, scope, entry) is None {
            insert_changes(rows, entry)
        } else {
            Seq::<RowChange>::empty()
        },
        LedgerOp::Update(id, patch) => if update_refusal(rows, scope, id, patch) is None {
            update_changes(rows, index_of(rows, id), patch)
        } else {
            Seq::<RowChange>::empty()
        },
        LedgerOp::Delete(id) => if delete_refusal(rows, id) is None {
            delete_changes(rows, index_of(rows, id))
        } else {
            Seq::<RowChange>::empty()
        },
    }
}

/// The writes of an insert, an edit or a delete take the store from the
/// rows before the operation to the rows after it.
pub proof fn law_operation_writes_replay(rows: Seq<Entry>, scope: u128, op: LedgerOp)
    requires
        rows_wf(rows, scope),
    ensures
        apply_changes(rows, writes_of(rows, scope, op)) == Some(after(rows, scope, op)),
{
    match op {
        LedgerOp::Insert(entry) => {
            if insert_refusal(rows, scope, entry) is None {
                law_insert_writes_replay(rows, scope, entry);
            }
        },
        LedgerOp::Update(id, patch) => {
            if update_refusal(rows, scope, id, patch) is None {
                law_update_writes_replay(rows, scope, id, patch);
            }
        },
        LedgerOp::Delete(id) => {
            if delete_refusal(rows, id) is None {
                law_delete_writes_replay(rows, scope, id);
            }
        },
    }
}

/// No two entries of a scope ever share a sequence number, not even
/// between two row writes of one operation: after each single write of an
/// insert, an edit or a delete, performed in the order that the ledger
/// gives, the store has accepted the write and holds its rows in strictly
/// ascending order of their numbers, under distinct identifiers.
pub proof fn law_operation_never_shares_a_number(
    rows: Seq<Entry>,
    scope: u128,
    op: LedgerOp,
    steps: int,
)
    requires
        rows_wf(rows, scope),
        0 <= steps <= writes_of(rows, scope, op).len(),
    ensures
        apply_changes(rows, writes_of(rows, scope, op).take(steps)) is Some,
        ascending(apply_changes(rows, writes_of(rows, scope, op).take(steps)).unwrap()),
        distinct_ids(apply_changes(rows, writes_of(rows, scope, op).take(steps)).unwrap()),
{
    law_operation_writes_replay(rows, scope, op);
    law_every_step_unique(rows, writes_of(rows, scope, op), steps);
}

/// One operation keeps a ledger well formed and keeps the prefix-sum rule.
pub proof fn law_operation_keeps_invariants(rows: Seq<Entry>, scope: u128, op: LedgerOp)
    requires
        rows_wf(rows, scope),
    ensures
        rows_wf(after(rows, scope, op), scope),
        prefix_sums_hold(rows) ==> prefix_sums_hold(after(rows, scope, op)),
{
    match op {
        LedgerOp::Insert(entry) => {
            if insert_refusal(rows, scope, entry) is None {
                lemma_inserted_wf(rows, scope, entry);
                if prefix_sums_hold(rows) {
                    law_insert_keeps_prefix_sums(rows, scope, entry);
                }
            }
        },
        LedgerOp::Update(id, patch) => {
            if update_refusal(rows, scope, id, patch) is None {
                lemma_updated_wf(rows, scope, id, patch);
                if prefix_sums_hold(rows) {
                    law_update_keeps_prefix_sums(rows, scope, id, patch);
                }
            }
        },
        LedgerOp::Delete(id) => {
            if delete_refusal(rows, id) is None {
                let at = index_of(rows, id);
                assert(0 <= at < rows.len() && rows[at].id == id);
                lemma_deleted_wf(rows, scope, at);
                if prefix_sums_hold(rows) {
                    law_delete_keeps_prefix_sums(rows, scope, id);
                }
            }
        },
    }
}

/// After any history of inserts, edits and deletes on a ledger that
/// started empty, the entries are in strictly ascending order of their
/// numbers, none of which occurs twice, and every stored balance is the
/// running sum of the amounts up to its entry.
pub proof fn law_history_keeps_invariants(scope: u128, ops: Seq<LedgerOp>)
    ensures
        rows_wf(after_all(Seq::<Entry>::empty(), scope, ops), scope),
        prefix_sums_hold(after_all(Seq::<Entry>::empty(), scope, ops)),
    decreases ops.len(),
{
    if ops.len() > 0 {
        law_history_keeps_invariants(scope, ops.drop_last());
        law_operation_keeps_invariants(
            after_all(Seq::<Entry>::empty(), scope, ops.drop_last()),
            scope,
            ops.last(),
        );
    }
}

/// Rows that follow the rows of the store in ascending order, under
/// identifiers that it does not hold, can be inserted one by one in that
/// order: the store accepts every insert, and ends with all of them.
pub proof fn lemma_replay_appends(rows: Seq<Entry>, more: Seq<Entry>)
    requires
        ascending(rows + more),
        distinct_ids(rows + more),
    ensures
        apply_changes(rows, inserts_of(more)) == Some(rows + more),
    decreases more.len(),
{
    let all = rows + more;
    let changes = inserts_of(more);
    if more.len() == 0 {
        assert(all =~= rows);
    } else {
        let first = more[0];
        let n = rows.len() as int;
        assert(all[n] == first);
        assert forall|i: int| 0 <= i < n implies (#[trigger] rows[i]).sequence_number
            < first.sequence_number by {
            assert(all[i] == rows[i]);
            assert(all[i].sequence_number < all[n].sequence_number);
        }
        lemma_split_index(rows, first.sequence_number as int, n);
        assert(!has_sequence_number(rows, first.sequence_number as int)) by {
            if has_sequence_number(rows, first.sequence_number as int) {
                let i = choose|i: int|
                    0 <= i < rows.len() && (#[trigger] rows[i]).sequence_number
                        == first.sequence_number;
                assert(rows[i].sequence_number < first.sequence_number);
            }
        }
        assert(!has_id(rows, first.id)) by {
            if has_id(rows, first.id) {
                let i = choose|i: int| 0 <= i < rows.len() && (#[trigger] rows[i]).id == first.id;
                assert(all[i] == rows[i]);
                assert(all[i].id != all[n].id);
            }
        }
        assert(changes[0] == RowChange::Insert(first));
        assert(rows.insert(n, first) =~= rows.push(first));
        assert(changes.drop_first() =~= inserts_of(more.drop_first()));
        assert(rows.push(first) + more.drop_first() =~= all);
        lemma_replay_appends(rows.push(first), more.drop_first());
    }
}

/// The inserts of a batch never collide: the store accepts them all, in
/// the order given, and ends with the rows of the ledger after the batch.
pub proof fn law_batch_writes_replay(rows: Seq<Entry>, scope: u128, entries: Seq<Entry>)
    requires
        rows_wf(rows, scope),
        batch_refusal(rows, scope, entries) is None,
    ensures
        rows_wf(rows + batch_rows(rows, entries), scope),
        apply_changes(rows, inserts_of(batch_rows(rows, entries))) == Some(
            rows + batch_rows(rows, entries),
        ),
{
    let more = batch_rows(rows, entries);
    lemma_high_water_mark(rows, scope);
    assert forall|k: int| 0 <= k < more.len() implies (#[trigger] more[k]).scope_id == scope by {
        assert(entries[k].scope_id == scope);
    }
    assert(distinct_ids(rows + more)) by {
        let old_all = rows + entries;
        let new_all = rows + more;
        assert forall|a: int, b: int| 0 <= a < b < new_all.len() implies (
        #[trigger] new_all[a]).id != (#[trigger] new_all[b]).id by {
            assert(old_all[a].id != old_all[b].id);
            assert(new_all[a].id == old_all[a].id);
            assert(new_all[b].id == old_all[b].id);
        }
    }
    lemma_extended_wf(rows, scope, more);
    lemma_replay_appends(rows, more);
}

/// A batch keeps the prefix-sum rule, and a batch into an empty ledger
/// establishes it: the entries are numbered from one in the order given,
/// with the running sums of their amounts as balances.
pub proof fn law_batch_keeps_prefix_sums(rows: Seq<Entry>, scope: u128, entries: Seq<Entry>)
    requires
        rows_wf(rows, scope),
        prefix_sums_hold(rows),
        batch_refusal(rows, scope, entries) is None,
    ensures
        prefix_sums_hold(rows + batch_rows(rows, entries)),
        rows.len() == 0 ==> forall|j: int|
            0 <= j < entries.len() ==> (#[trigger] batch_rows(rows, entries)[j]).sequence_number
                == j + 1,
{
    let more = batch_rows(rows, entries);
    let out = rows + more;
    let n = rows.len() as int;
    let closing = balance_before(rows, 0, n);
    let fresh = rebalanced(entries, closing);
    lemma_rebalanced_is_chained(entries, closing);
    assert forall|i: int| 0 <= i < out.len() implies out[i].balance == #[trigger] balance_before(
        out,
        0,
        i,
    ) + out[i].amount by {
        if i < n {
            assert(out[i] == rows[i]);
            if i > 0 {
                assert(out[i - 1] == rows[i - 1]);
            }
            assert(rows[i].balance == balance_before(rows, 0, i) + rows[i].amount);
        } else {
            let k = i - n;
            assert(out[i] == more[k]);
            assert(fresh[k].balance == balance_before(fresh, closing, k) + fresh[k].amount);
            assert(more[k].balance == fresh[k].balance);
            if k > 0 {
                assert(out[i - 1] == more[k - 1]);
                assert(more[k - 1].balance == fresh[k - 1].balance);
            } else if n > 0 {
                assert(out[n - 1] == rows[n - 1]);
            }
        }
    }
}

/// The inserts of a promotion never collide: the store accepts them all,
/// in the order given, and ends with the posted rows after the promotion,
/// which continue after the account's high-water mark.
pub proof fn law_promotion_writes_replay(
    posted: Seq<Entry>,
    account: u128,
    staged: Seq<Entry>,
    import: u128,
    ids: Seq<u128>,
)
    requires
        rows_wf(posted, account),
        rows_wf(staged, import),
        promotion_refusal(posted, account, staged, ids) is None,
    ensures
        rows_wf(posted + promoted(staged, account, high_water_mark(posted), ids), account),
        apply_changes(
            posted,
            inserts_of(promoted(staged, account, high_water_mark(posted), ids)),
        ) == Some(posted + promoted(staged, account, high_water_mark(posted), ids)),
        high_water_mark(posted + promoted(staged, account, high_water_mark(posted), ids))
            == high_water_mark(posted) + high_water_mark(staged),
{
    let mark = high_water_mark(posted);
    let more = promoted(staged, account, mark, ids);
    lemma_high_water_mark(posted, account);
    lemma_high_water_mark(staged, import);
    assert forall|a: int, b: int| 0 <= a < b < more.len() implies (
    #[trigger] more[a]).sequence_number < (#[trigger] more[b]).sequence_number by {
        assert(staged[a].sequence_number < staged[b].sequence_number);
        assert(staged[a].sequence_number >= 1);
        assert(staged[b].sequence_number <= high_water_mark(staged));
    }
    if more.len() > 0 {
        assert(staged[0].sequence_number >= 1);
        assert(staged[0].sequence_number <= high_water_mark(staged));
    }
    lemma_extended_wf(posted, account, more);
    lemma_replay_appends(posted, more);
}

} // verus!
