//! The row writes that an edit of a ledger yields for a persistent store.

use vstd::prelude::*;
use crate::entry::Entry;

verus! {

/// One row write that a persistent store is to perform.
#[derive(Debug, PartialEq, Eq)]
pub enum RowChange {
    /// Add the row.
    Insert(Entry),
    /// Give the row with `id` this sequence number and this balance.
    Update { id: u128, sequence_number: i64, balance: i64 },
    /// Remove the row with `id`.
    Delete { id: u128 },
}

/// The write that brings a stored row to the number and balance of `row`.
pub open spec fn update_of(row: Entry) -> RowChange {
    RowChange::Update { id: row.id, sequence_number: row.sequence_number, balance: row.balance }
}

/// One update per row, in the order of the rows.
pub open spec fn updates_ascending(rows: Seq<Entry>) -> Seq<RowChange> {
    Seq::new(rows.len(), |i: int| update_of(rows[i]))
}

/// One update per row, last row first.
pub open spec fn updates_descending(rows: Seq<Entry>) -> Seq<RowChange> {
    Seq::new(rows.len(), |i: int| update_of(rows[rows.len() - 1 - i]))
}

/// One insert per row, in the order of the rows.
pub open spec fn inserts_of(rows: Seq<Entry>) -> Seq<RowChange> {
    Seq::new(rows.len(), |i: int| RowChange::Insert(rows[i]))
}

} // verus!
