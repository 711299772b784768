//! A typed graph store in which every record ("cyberlink") is either a vertex
//! or an edge between two other records, constrained by a small schema of
//! "Type" records.  The store hands out monotonic numeric ids and per-type
//! formatted ids, keeps secondary orderings consistent with the primary map,
//! maintains aggregate counters, and soft-deletes records behind permanent
//! tombstones.
//!
//! Two policies are fixed deliberately.  Updates may change a link's value
//! only; its type, endpoints, owner and creation time are immutable, so no
//! re-validation is ever needed.  Batch creation validates and creates each
//! item independently and reports failures per item; the items that succeed
//! stay.  Formatted ids are never reassigned: a caller-supplied name that
//! is already mapped is refused, even when its record was deleted.

use vstd::prelude::*;

pub mod contract;
pub mod error;
pub mod model;
pub mod msg;
pub mod query;
pub mod semcores;
pub mod state;
pub mod execute;
pub mod text;
pub mod theorems;

pub use crate::error::ContractError;

verus! {

/// Upper bound a caller may ask for in one query page.
pub const MAX_LIMIT: u32 = 100;

/// Page size used when a query gives no limit.
pub const DEFAULT_LIMIT: u32 = 50;

} // verus!
