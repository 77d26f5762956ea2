//! One table column: a coarse outer lock guarding the structural shape
//! of one `CellMap`, plus the column's place in the table's canonical
//! lock-acquisition order.
//!
//! Holding the outer lock in *read* mode admits any number of per-cell
//! operations (the cell locks are orthogonal); holding it in *write*
//! mode is required exactly where the key set itself changes: insert,
//! bulk extend and remove. Mutating an existing key's value needs only
//! that key's cell write hold, under any outer hold.

use vstd::prelude::*;

use crate::cell_map::CellMap;
use crate::cell_map::batch_has;
use crate::cell_map::insert_all;
use crate::lock::Lock;
use crate::lock::RwCell;

verus! {

/// A column: `OuterLock<CellMap<Key, InnerLock<Value>>>`, with the outer
/// lock state carried in-line, and a canonical id giving the column's
/// place in its table's lock order.
pub struct Column<V> {
    id: u64,
    outer_readers: u64,
    outer_writer: bool,
    cell_map: CellMap<V>,
}

impl<V> Column<V> {
    /// The column's place in the table's canonical lock order.
    pub closed spec fn id(&self) -> u64 {
        self.id
    }

    /// Outstanding shared holds on the outer lock.
    pub closed spec fn outer_readers(&self) -> nat {
        self.outer_readers as nat
    }

    /// Whether the outer lock is held exclusively.
    pub closed spec fn outer_writer(&self) -> bool {
        self.outer_writer
    }

    /// Any outer hold at all: what per-cell operations require.
    pub open spec fn outer_held(&self) -> bool {
        self.outer_readers() > 0 || self.outer_writer()
    }

    /// The cell layer's mapping, key to cell.
    pub closed spec fn cells(&self) -> Map<u64, RwCell<V>> {
        self.cell_map.cells()
    }

    /// Whether `key` currently has an entry in this column.
    pub open spec fn contains_key(&self, key: u64) -> bool {
        self.cells().dom().contains(key)
    }

    /// The cell stored at `key`.
    pub open spec fn cell(&self, key: u64) -> RwCell<V>
        recommends
            self.contains_key(key),
    {
        self.cells()[key]
    }

    /// The raw value stored at `key`.
    pub open spec fn value_at(&self, key: u64) -> V
        recommends
            self.contains_key(key),
    {
        self.cell(key).value()
    }

    /// The column with lock state forgotten: key to raw value.
    pub open spec fn raw(&self) -> Map<u64, V> {
        self.cells().map_values(|c: RwCell<V>| c.value())
    }

    /// Well-formed: the cell layer stores each key once.
    pub closed spec fn wf(&self) -> bool {
        self.cell_map.wf()
    }

    /// A fresh, empty, unheld column with canonical id `id`.
    pub fn new(id: u64) -> (r: Self)
        ensures
            r.wf(),
            r.id() == id,
            r.cells() == Map::<u64, RwCell<V>>::empty(),
            r.outer_readers() == 0,
            !r.outer_writer(),
    {
        Column { id, outer_readers: 0, outer_writer: false, cell_map: CellMap::new() }
    }

    /// The column's canonical id.
    pub fn canonical_id(&self) -> (r: u64)
        ensures
            r == self.id(),
    {
        self.id
    }

    /// Acquire the outer lock shared, for a session of per-cell work.
    /// Admission: no outer writer (a blocking backend would wait here).
    pub fn read_cell_map(&mut self)
        requires
            !old(self).outer_writer(),
            old(self).outer_readers() < u64::MAX,
        ensures
            final(self).outer_readers() == old(self).outer_readers() + 1,
            !final(self).outer_writer(),
            final(self).unchanged_but_outer(*old(self)),
    {
        self.outer_readers = self.outer_readers + 1;
    }

    /// Acquire the outer lock exclusively, for structural changes.
    /// Admission: no outer holder at all.
    pub fn write_cell_map(&mut self)
        requires
            old(self).outer_readers() == 0,
            !old(self).outer_writer(),
        ensures
            final(self).outer_writer(),
            final(self).outer_readers() == 0,
            final(self).unchanged_but_outer(*old(self)),
    {
        self.outer_writer = true;
    }

    /// Give back one shared outer hold.
    pub fn release_read_cell_map(&mut self)
        requires
            old(self).outer_readers() > 0,
        ensures
            final(self).outer_readers() == old(self).outer_readers() - 1,
            final(self).outer_writer() == old(self).outer_writer(),
            final(self).unchanged_but_outer(*old(self)),
    {
        self.outer_readers = self.outer_readers - 1;
    }

    /// Give back the exclusive outer hold.
    pub fn release_write_cell_map(&mut self)
        requires
            old(self).outer_writer(),
        ensures
            !final(self).outer_writer(),
            final(self).outer_readers() == old(self).outer_readers(),
            final(self).unchanged_but_outer(*old(self)),
    {
        self.outer_writer = false;
    }

    /// Everything except the outer lock state is as in `pre`.
    pub open spec fn unchanged_but_outer(&self, pre: Self) -> bool {
        &&& self.id() == pre.id()
        &&& self.cells() == pre.cells()
        &&& self.wf() == pre.wf()
    }

    /// The outer lock state and id are as in `pre`.
    pub open spec fn same_outer(&self, pre: Self) -> bool {
        &&& self.id() == pre.id()
        &&& self.outer_readers() == pre.outer_readers()
        &&& self.outer_writer() == pre.outer_writer()
    }

    /// Insert `value` at `key` behind a fresh, unheld cell lock (upsert);
    /// hands back the evicted cell when the key was present. A structural
    /// change: requires the exclusive outer hold.
    pub fn insert(&mut self, key: u64, value: V) -> (prev: Option<RwCell<V>>)
        requires
            old(self).wf(),
            old(self).outer_writer(),
        ensures
            final(self).wf(),
            final(self).same_outer(*old(self)),
            final(self).contains_key(key),
            final(self).value_at(key) == value,
            final(self).cell(key).readers() == 0,
            !final(self).cell(key).writer(),
            final(self).cells().dom() =~= old(self).cells().dom().insert(key),
            final(self).raw() == old(self).raw().insert(key, value),
            forall|k: u64|
                k != key && old(self).contains_key(k) ==> final(self).contains_key(k) && final(self).cell(k) == old(self).cell(k),
            match prev {
                Some(cell) => old(self).contains_key(key) && cell == old(self).cell(key),
                None => !old(self).contains_key(key),
            },
    {
        let prev = self.cell_map.insert(key, value);
        proof {
            assert forall|k: u64| k != key && old(self).contains_key(k) implies self.contains_key(
                k,
            ) && self.cell(k) == old(self).cell(k) by {
                assert(self.cell_map.cell(k) == old(self).cell_map.cell(k));
            }
        }
        prev
    }

    /// Remove the entry at `key`, handing back its cell if present.
    /// A structural change: requires the exclusive outer hold.
    pub fn remove(&mut self, key: u64) -> (prev: Option<RwCell<V>>)
        requires
            old(self).wf(),
            old(self).outer_writer(),
        ensures
            final(self).wf(),
            final(self).same_outer(*old(self)),
            final(self).cells() == old(self).cells().remove(key),
            !final(self).contains_key(key),
            match prev {
                Some(cell) => old(self).contains_key(key) && cell == old(self).cell(key),
                None => !old(self).contains_key(key),
            },
    {
        self.cell_map.remove(key)
    }

    /// Bulk upsert of a batch, in order, each value behind a fresh,
    /// unheld cell lock. A structural change: requires the exclusive
    /// outer hold.
    pub fn extend(&mut self, values: Vec<(u64, V)>)
        requires
            old(self).wf(),
            old(self).outer_writer(),
        ensures
            final(self).wf(),
            final(self).same_outer(*old(self)),
            final(self).raw() == insert_all(old(self).raw(), values@),
            forall|k: u64| #[trigger]
                final(self).contains_key(k) <==> old(self).contains_key(k) || batch_has(
                    values@,
                    k,
                ),
            forall|k: u64|
                batch_has(values@, k) ==> final(self).cell(k).readers() == 0 && !final(self).cell(
                    k,
                ).writer(),
            forall|k: u64|
                !batch_has(values@, k) && old(self).contains_key(k) ==> final(self).cell(k) == old(self).cell(k),
    {
        let ghost vs = values@;
        self.cell_map.extend(values);
        proof {
            assert forall|k: u64| #[trigger]
                self.contains_key(k) <==> old(self).contains_key(k) || batch_has(vs, k) by {
                assert(self.cell_map.contains_key(k) <==> old(self).cell_map.contains_key(k)
                    || batch_has(vs, k));
            }
            assert forall|k: u64| batch_has(vs, k) implies self.cell(k).readers() == 0
                && !self.cell(k).writer() by {
                assert(self.cell_map.cell(k).readers() == 0 && !self.cell_map.cell(k).writer());
            }
            assert forall|k: u64| !batch_has(vs, k) && old(self).contains_key(k) implies self.cell(
                k,
            ) == old(self).cell(k) by {
                assert(old(self).cell_map.contains_key(k));
                assert(self.cell_map.cell(k) == old(self).cell_map.cell(k));
            }
        }
    }

    /// Acquire a shared hold on `key`'s cell; true exactly when the key
    /// is present. Requires some outer hold; admission further requires
    /// the cell not write-held.
    pub fn read_cell(&mut self, key: u64) -> (r: bool)
        requires
            old(self).wf(),
            old(self).outer_held(),
            old(self).contains_key(key) ==> !old(self).cell(key).writer() && old(self).cell(
                key,
            ).readers() < u64::MAX,
        ensures
            final(self).wf(),
            final(self).same_outer(*old(self)),
            r == old(self).contains_key(key),
            final(self).cells().dom() == old(self).cells().dom(),
            r ==> final(self).cell(key).readers() == old(self).cell(key).readers() + 1 && final(self).cell(key).writer() == old(self).cell(key).writer() && final(self).value_at(key)
                == old(self).value_at(key),
            forall|k: u64|
                k != key && old(self).contains_key(k) ==> final(self).cell(k) == old(self).cell(k),
            !r ==> final(self).cells() == old(self).cells(),
    {
        let r = self.cell_map.read_cell(key);
        proof {
            assert forall|k: u64| k != key && old(self).contains_key(k) implies self.cell(k)
                == old(self).cell(k) by {
                assert(self.cell_map.cell(k) == old(self).cell_map.cell(k));
            }
        }
        r
    }

    /// Acquire the exclusive hold on `key`'s cell; true exactly when the
    /// key is present. Requires some outer hold; admission further
    /// requires the cell entirely unheld.
    pub fn write_cell(&mut self, key: u64) -> (r: bool)
        requires
            old(self).wf(),
            old(self).outer_held(),
            old(self).contains_key(key) ==> !old(self).cell(key).writer() && old(self).cell(
                key,
            ).readers() == 0,
        ensures
            final(self).wf(),
            final(self).same_outer(*old(self)),
            r == old(self).contains_key(key),
            final(self).cells().dom() == old(self).cells().dom(),
            r ==> final(self).cell(key).writer() && final(self).cell(key).readers() == 0 && final(self).value_at(key) == old(self).value_at(key),
            forall|k: u64|
                k != key && old(self).contains_key(k) ==> final(self).cell(k) == old(self).cell(k),
            !r ==> final(self).cells() == old(self).cells(),
    {
        let r = self.cell_map.write_cell(key);
        proof {
            assert forall|k: u64| k != key && old(self).contains_key(k) implies self.cell(k)
                == old(self).cell(k) by {
                assert(self.cell_map.cell(k) == old(self).cell_map.cell(k));
            }
        }
        r
    }

    /// Give back one shared hold on `key`'s cell.
    pub fn release_read_cell(&mut self, key: u64)
        requires
            old(self).wf(),
            old(self).contains_key(key),
            old(self).cell(key).readers() > 0,
        ensures
            final(self).wf(),
            final(self).same_outer(*old(self)),
            final(self).cells().dom() == old(self).cells().dom(),
            final(self).cell(key).readers() == old(self).cell(key).readers() - 1,
            final(self).cell(key).writer() == old(self).cell(key).writer(),
            final(self).value_at(key) == old(self).value_at(key),
            forall|k: u64|
                k != key && old(self).contains_key(k) ==> final(self).cell(k) == old(self).cell(k),
    {
        self.cell_map.release_read_cell(key);
        proof {
            assert forall|k: u64| k != key && old(self).contains_key(k) implies self.cell(k)
                == old(self).cell(k) by {
                assert(self.cell_map.cell(k) == old(self).cell_map.cell(k));
            }
        }
    }

    /// Give back the exclusive hold on `key`'s cell.
    pub fn release_write_cell(&mut self, key: u64)
        requires
            old(self).wf(),
            old(self).contains_key(key),
            old(self).cell(key).writer(),
        ensures
            final(self).wf(),
            final(self).same_outer(*old(self)),
            final(self).cells().dom() == old(self).cells().dom(),
            final(self).cell(key).readers() == old(self).cell(key).readers(),
            !final(self).cell(key).writer(),
            final(self).value_at(key) == old(self).value_at(key),
            forall|k: u64|
                k != key && old(self).contains_key(k) ==> final(self).cell(k) == old(self).cell(k),
    {
        self.cell_map.release_write_cell(key);
        proof {
            assert forall|k: u64| k != key && old(self).contains_key(k) implies self.cell(k)
                == old(self).cell(k) by {
                assert(self.cell_map.cell(k) == old(self).cell_map.cell(k));
            }
        }
    }

    /// Read the value behind `key`'s cell; any hold on that cell grants it.
    pub fn read_value(&self, key: u64) -> (r: &V)
        requires
            self.wf(),
            self.contains_key(key),
            self.cell(key).readers() > 0 || self.cell(key).writer(),
        ensures
            *r == self.value_at(key),
    {
        self.cell_map.read_value(key)
    }

    /// Replace the value behind `key`'s cell; only its write holder may.
    /// No structural change: any outer hold suffices.
    pub fn set_value(&mut self, key: u64, value: V)
        requires
            old(self).wf(),
            old(self).contains_key(key),
            old(self).cell(key).writer(),
        ensures
            final(self).wf(),
            final(self).same_outer(*old(self)),
            final(self).cells().dom() == old(self).cells().dom(),
            final(self).value_at(key) == value,
            final(self).cell(key).readers() == old(self).cell(key).readers(),
            final(self).cell(key).writer() == old(self).cell(key).writer(),
            forall|k: u64|
                k != key && old(self).contains_key(k) ==> final(self).cell(k) == old(self).cell(k),
    {
        self.cell_map.set_value(key, value);
        proof {
            assert forall|k: u64| k != key && old(self).contains_key(k) implies self.cell(k)
                == old(self).cell(k) by {
                assert(self.cell_map.cell(k) == old(self).cell_map.cell(k));
            }
        }
    }

    /// Whether `key` has an entry, as an executable membership test.
    pub fn has_key(&self, key: u64) -> (r: bool)
        requires
            self.wf(),
        ensures
            r == self.contains_key(key),
    {
        match self.cell_map.get(key) {
            Some(_) => true,
            None => false,
        }
    }

    /// The column's keys, one copy each, in storage order.
    pub fn keys(&self) -> (r: Vec<u64>)
        requires
            self.wf(),
            self.outer_held(),
        ensures
            r@.no_duplicates(),
            r@.to_set() =~= self.cells().dom(),
            forall|k: u64| self.contains_key(k) ==> r@.contains(k),
            forall|i: int| 0 <= i < r@.len() ==> self.contains_key(r@[i]),
    {
        self.cell_map.keys()
    }
}

} // verus!
