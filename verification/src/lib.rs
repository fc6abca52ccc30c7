//! An ordered ledger engine for bank-statement imports.
//!
//! Two kinds of ledger share one shape: a staged ledger per import batch and
//! a posted ledger per account. Within a ledger every entry has a unique
//! sequence number and carries the running balance of the signed amounts up
//! to its position. The engine computes, for each edit, the new rows and the
//! ordered list of row writes that a persistent store has to perform.

pub mod error;
pub mod entry;
pub mod changes;
pub mod balance;
pub mod sequence;
pub mod ledger;
pub mod replay;
pub mod laws;
pub mod window;
pub mod table;
pub mod statement;
pub mod database;
pub mod helpers;
pub mod sorting;
pub mod queries;
pub mod accounts;
pub mod transactions;
pub mod staged_transactions;
pub mod imports;
pub mod readers;
pub mod text;
pub mod utils;
