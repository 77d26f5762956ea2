//! A column-oriented keyed storage core: independently locked columns,
//! composable into typed multi-column row views, backed by a per-shape
//! key index for iteration.
//!
//! Locking is modelled explicitly: every lock in the library carries its
//! state (reader count, writer flag) as data, and each operation's
//! contract states the admission it needs and the state it leaves behind.

pub mod cell_map;
pub mod column;
pub mod from_row;
pub mod key_set;
pub mod key_value_map;
pub mod keys;
pub mod next_key;
pub mod row;
pub mod lock;

use vstd::prelude::*;

verus! {

/// Failures surfaced by key-index and row operations.
///
/// A lock backend may additionally fail by poisoning when a holder
/// aborts mid-hold; the in-data lock model cannot abort, so that
/// failure only arises in unverified backends wrapped around the core.
#[derive(Clone, Copy, Debug, PartialEq, Eq, Structural)]
pub enum TableError {
    /// The key index was addressed by a never-registered column-set id.
    UnknownColumnSet,
    /// A row lookup or removal named a key missing from a participating
    /// column or from the shape's key index.
    KeyNotFound,
}

} // verus!
