//! Data-access core of a personal finance tracker.
//!
//! Three record kinds — categories, accounts, transactions — each with five
//! operations: create, get, list (with optional filters, limit and offset),
//! update and delete.  The semantics of every operation is implemented and
//! verified here over an in-memory table; the `query` module builds, for each
//! operation, the SQL statement and positional parameter list that a
//! file-backed SQLite store runs, with the placeholder order and the bound
//! value order guaranteed to match by construction.

use vstd::prelude::*;

pub mod categoria;
pub mod conta;
pub mod transacao;
pub mod paging;
pub mod query;
pub mod text;

verus! {

/// Ids are assigned by the tables, starting at 1 and increasing by 1.
pub open spec fn valid_id(id: i64, next_id: i64) -> bool {
    0 < id < next_id
}

} // verus!
