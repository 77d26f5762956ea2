//! Conversion from one row's fetched values to a user's own aggregate.

use vstd::prelude::*;

verus! {

/// A type that can build itself from a fetched row of type `T`, such as
/// a pair of column values.
pub trait FromRow<T>: Sized {
    /// Build `Self` from the fetched row.
    fn from_row(row: &mut T) -> Self;
}

} // verus!
