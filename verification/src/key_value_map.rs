//! The unique-key mapping capability the cell layer builds on.

use vstd::prelude::*;

use crate::cell_map::insert_all;

verus! {

/// Capability contract for a unique-key mapping: upsert, lookup, bulk
/// extend, removal, and a snapshot of the keys. Mutating one key's
/// entry leaves every other entry untouched.
pub trait KeyValueMap<V>: Sized {
    /// The mapping as a whole.
    spec fn entries(&self) -> Map<u64, V>;

    /// Internal well-formedness.
    spec fn wf(&self) -> bool;

    /// A fresh, empty mapping.
    fn empty() -> (r: Self)
        ensures
            r.wf(),
            r.entries() == Map::<u64, V>::empty(),
    ;

    /// Upsert `value` at `key`, handing back the previous value if any.
    fn insert(&mut self, key: u64, value: V) -> (prev: Option<V>)
        requires
            old(self).wf(),
        ensures
            final(self).wf(),
            final(self).entries() == old(self).entries().insert(key, value),
            match prev {
                Some(v) => old(self).entries().dom().contains(key) && v == old(self).entries()[key],
                None => !old(self).entries().dom().contains(key),
            },
    ;

    /// Upsert every pair of the batch, in order: a later duplicate key
    /// wins.
    fn extend(&mut self, values: Vec<(u64, V)>)
        requires
            old(self).wf(),
        ensures
            final(self).wf(),
            final(self).entries() == insert_all(old(self).entries(), values@),
    ;

    /// Shared borrow of the entry at `key`, if present.
    fn get(&self, key: u64) -> (r: Option<&V>)
        requires
            self.wf(),
        ensures
            match r {
                Some(v) => self.entries().dom().contains(key) && *v == self.entries()[key],
                None => !self.entries().dom().contains(key),
            },
    ;

    /// Remove the entry at `key`, handing it back if present.
    fn remove(&mut self, key: u64) -> (prev: Option<V>)
        requires
            old(self).wf(),
        ensures
            final(self).wf(),
            final(self).entries() == old(self).entries().remove(key),
            match prev {
                Some(v) => old(self).entries().dom().contains(key) && v == old(self).entries()[key],
                None => !old(self).entries().dom().contains(key),
            },
    ;

    /// The stored keys, one copy each.
    fn keys(&self) -> (r: Vec<u64>)
        requires
            self.wf(),
        ensures
            r@.no_duplicates(),
            r@.to_set() == self.entries().dom(),
    ;
}

} // verus!
