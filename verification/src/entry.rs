//! The ledger entry and its builders.

use vstd::prelude::*;

verus! {

/// One row of a ledger, staged or posted.
///
/// `scope_id` is the import (staged) or the account (posted) that the row
/// belongs to. Amounts and balances are in minor currency units; `date` is
/// in seconds since the Unix epoch.
#[derive(Debug, PartialEq, Eq)]
pub struct Entry {
    pub id: u128,
    pub scope_id: u128,
    pub sequence_number: i64,
    pub date: i64,
    pub amount: i64,
    pub balance: i64,
    pub ref_no: String,
    pub description: String,
}

impl Entry {
    /// The entry with another running balance.
    pub open spec fn with_balance(self, balance: i64) -> Entry {
        Entry { balance, ..self }
    }

    /// The entry at another position.
    pub open spec fn with_sequence_number(self, sequence_number: i64) -> Entry {
        Entry { sequence_number, ..self }
    }

    /// A copy of the entry, field for field.
    pub fn duplicate(&self) -> (copy: Entry)
        ensures
            copy == *self,
    {
        Entry {
            id: self.id,
            scope_id: self.scope_id,
            sequence_number: self.sequence_number,
            date: self.date,
            amount: self.amount,
            balance: self.balance,
            ref_no: self.ref_no.clone(),
            description: self.description.clone(),
        }
    }
}

/// Draws a new identifier from `uuid::Uuid::new_v4` and hands back its
/// 128-bit value. The value is random, so nothing is stated of it.
#[verifier::external_body]
pub(crate) fn fresh_id() -> (id: u128) {
    uuid::Uuid::new_v4().as_u128()
}

/// The entry that the builders make once the identifier is known.
pub fn entry_with_id(
    id: u128,
    scope_id: u128,
    sequence_number: i64,
    date: i64,
    amount: i64,
    balance: i64,
    ref_no: String,
    description: String,
) -> (entry: Entry)
    ensures
        entry == (Entry { id, scope_id, sequence_number, date, amount, balance, ref_no, description }),
{
    Entry { id, scope_id, sequence_number, date, amount, balance, ref_no, description }
}

/// A new posted entry for an account, under a fresh identifier and with a
/// balance of zero: the ledger sets the balance when the entry is inserted.
pub fn build_transaction(
    amount: i64,
    account_id: u128,
    date: i64,
    sequence_number: i64,
    ref_no: String,
    description: String,
) -> (entry: Entry)
    ensures
        entry == (Entry {
            id: entry.id,
            scope_id: account_id,
            sequence_number,
            date,
            amount,
            balance: 0,
            ref_no,
            description,
        }),
{
    entry_with_id(fresh_id(), account_id, sequence_number, date, amount, 0, ref_no, description)
}

/// A new staged entry for an import, under a fresh identifier, with the
/// balance that the statement gave.
pub fn build_staged_transaction(
    amount: i64,
    import_id: u128,
    date: i64,
    balance: i64,
    sequence_number: i64,
    ref_no: String,
    description: String,
) -> (entry: Entry)
    ensures
        entry == (Entry {
            id: entry.id,
            scope_id: import_id,
            sequence_number,
            date,
            amount,
            balance,
            ref_no,
            description,
        }),
{
    entry_with_id(fresh_id(), import_id, sequence_number, date, amount, balance, ref_no, description)
}

} // verus!
