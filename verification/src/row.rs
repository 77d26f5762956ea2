//! The row protocol: a fixed, ordered pair of columns used as one
//! multi-column access unit.
//!
//! A session runs from `write_columns` (or `read_columns`) to the
//! matching release: the outer lock of every participating column is
//! acquired **in the table's canonical column order** — by canonical id,
//! never by the shape's own field order — so that two shapes sharing
//! columns can never deadlock by acquiring them in opposite orders.
//! Inside a session, `get_row`, `insert`, `extend` and `remove` work
//! through the held outer locks.
//!
//! The shape's own key-index entry is updated before the per-column
//! mutations, and a failure part-way through a multi-column mutation
//! leaves earlier columns updated: callers needing all-or-nothing must
//! pre-validate, as the membership checks here do.

use vstd::prelude::*;

use crate::TableError;
use crate::cell_map::batch_has;
use crate::cell_map::insert_all;
use crate::column::Column;
use crate::keys::KeyIndex;
use crate::keys::Keys;
use crate::lock::Lock;
use crate::lock::RwCell;

verus! {

/// The keys of a two-column batch, in order.
pub open spec fn batch_keys<V1, V2>(s: Seq<(u64, (V1, V2))>) -> Seq<u64> {
    s.map_values(|p: (u64, (V1, V2))| p.0)
}

/// A two-column batch restricted to the first column's values.
pub open spec fn firsts<V1, V2>(s: Seq<(u64, (V1, V2))>) -> Seq<(u64, V1)> {
    s.map_values(|p: (u64, (V1, V2))| (p.0, p.1.0))
}

/// A two-column batch restricted to the second column's values.
pub open spec fn seconds<V1, V2>(s: Seq<(u64, (V1, V2))>) -> Seq<(u64, V2)> {
    s.map_values(|p: (u64, (V1, V2))| (p.0, p.1.1))
}

/// One column's place in a row shape: which column, and whether the
/// shape takes it read-only or read-write.
#[derive(Clone, Copy, PartialEq, Eq, Structural)]
pub struct RowField {
    /// The canonical id of the column this field binds.
    pub column: u64,
    /// Whether `get_row` takes this field's cell exclusively.
    pub writable: bool,
}

/// A row shape over two columns: its column-set id (indexing the key
/// index) and its two column bindings in field order.
#[derive(Clone, Copy, PartialEq, Eq, Structural)]
pub struct Row {
    /// The shape's stable column-set id.
    pub id: u64,
    /// The first field's column binding.
    pub first: RowField,
    /// The second field's column binding.
    pub second: RowField,
}

impl Row {
    /// A shape is well-formed when its two fields bind distinct columns.
    pub open spec fn wf(&self) -> bool {
        self.first.column != self.second.column
    }

    /// The given columns are this shape's columns, in field order.
    pub open spec fn columns_match<V1, V2>(&self, c1: &Column<V1>, c2: &Column<V2>) -> bool {
        &&& self.wf()
        &&& c1.id() == self.first.column
        &&& c2.id() == self.second.column
    }

    /// The shape's column-set id, indexing the key index.
    pub fn key_cache_id(&self) -> (r: u64)
        ensures
            r == self.id,
    {
        self.id
    }

    /// Begin a structural session: acquire both columns' outer locks
    /// exclusively, in canonical id order. Admission: both outer locks
    /// entirely unheld (a blocking backend would wait, one column at a
    /// time, in the same order).
    pub fn write_columns<V1, V2>(&self, c1: &mut Column<V1>, c2: &mut Column<V2>)
        requires
            self.columns_match(old(c1), old(c2)),
            old(c1).outer_readers() == 0,
            !old(c1).outer_writer(),
            old(c2).outer_readers() == 0,
            !old(c2).outer_writer(),
        ensures
            final(c1).outer_writer(),
            final(c2).outer_writer(),
            final(c1).outer_readers() == 0,
            final(c2).outer_readers() == 0,
            final(c1).unchanged_but_outer(*old(c1)),
            final(c2).unchanged_but_outer(*old(c2)),
    {
        if c1.canonical_id() < c2.canonical_id() {
            c1.write_cell_map();
            c2.write_cell_map();
        } else {
            c2.write_cell_map();
            c1.write_cell_map();
        }
    }

    /// Begin a reading session: acquire both columns' outer locks
    /// shared, in canonical id order.
    pub fn read_columns<V1, V2>(&self, c1: &mut Column<V1>, c2: &mut Column<V2>)
        requires
            self.columns_match(old(c1), old(c2)),
            !old(c1).outer_writer(),
            old(c1).outer_readers() < u64::MAX,
            !old(c2).outer_writer(),
            old(c2).outer_readers() < u64::MAX,
        ensures
            final(c1).outer_readers() == old(c1).outer_readers() + 1,
            final(c2).outer_readers() == old(c2).outer_readers() + 1,
            !final(c1).outer_writer(),
            !final(c2).outer_writer(),
            final(c1).unchanged_but_outer(*old(c1)),
            final(c2).unchanged_but_outer(*old(c2)),
    {
        if c1.canonical_id() < c2.canonical_id() {
            c1.read_cell_map();
            c2.read_cell_map();
        } else {
            c2.read_cell_map();
            c1.read_cell_map();
        }
    }

    /// End a structural session: give back both exclusive outer holds,
    /// in reverse canonical order.
    pub fn release_write_columns<V1, V2>(&self, c1: &mut Column<V1>, c2: &mut Column<V2>)
        requires
            self.columns_match(old(c1), old(c2)),
            old(c1).outer_writer(),
            old(c2).outer_writer(),
        ensures
            !final(c1).outer_writer(),
            !final(c2).outer_writer(),
            final(c1).outer_readers() == old(c1).outer_readers(),
            final(c2).outer_readers() == old(c2).outer_readers(),
            final(c1).unchanged_but_outer(*old(c1)),
            final(c2).unchanged_but_outer(*old(c2)),
    {
        if c1.canonical_id() < c2.canonical_id() {
            c2.release_write_cell_map();
            c1.release_write_cell_map();
        } else {
            c1.release_write_cell_map();
            c2.release_write_cell_map();
        }
    }

    /// End a reading session: give back one shared outer hold on each
    /// column, in reverse canonical order.
    pub fn release_read_columns<V1, V2>(&self, c1: &mut Column<V1>, c2: &mut Column<V2>)
        requires
            self.columns_match(old(c1), old(c2)),
            old(c1).outer_readers() > 0,
            old(c2).outer_readers() > 0,
        ensures
            final(c1).outer_readers() == old(c1).outer_readers() - 1,
            final(c2).outer_readers() == old(c2).outer_readers() - 1,
            final(c1).outer_writer() == old(c1).outer_writer(),
            final(c2).outer_writer() == old(c2).outer_writer(),
            final(c1).unchanged_but_outer(*old(c1)),
            final(c2).unchanged_but_outer(*old(c2)),
    {
        if c1.canonical_id() < c2.canonical_id() {
            c2.release_read_cell_map();
            c1.release_read_cell_map();
        } else {
            c1.release_read_cell_map();
            c2.release_read_cell_map();
        }
    }

    /// The cell-lock admission `get_row` needs on one column's cell at
    /// `key`, by that field's mode: a writable field needs the cell
    /// entirely unheld, a read-only field needs it not write-held.
    pub open spec fn cell_admission<V>(field: RowField, c: &Column<V>, key: u64) -> bool {
        c.contains_key(key) ==> (!c.cell(key).writer() && (if field.writable {
            c.cell(key).readers() == 0
        } else {
            c.cell(key).readers() < u64::MAX
        }))
    }

    /// The hold `get_row` leaves on one column's cell at `key`, by that
    /// field's mode.
    pub open spec fn cell_held<V>(field: RowField, pre: &Column<V>, post: &Column<V>, key: u64) -> bool {
        if field.writable {
            post.cell(key).writer() && post.cell(key).readers() == 0
        } else {
            post.cell(key).readers() == pre.cell(key).readers() + 1 && !post.cell(key).writer()
        }
    }

    /// Fetch the row at `key`: acquire the per-cell hold for `key` in
    /// every participating column, read or write by the field's mode.
    /// Fails with `KeyNotFound`, touching nothing, when `key` is missing
    /// from any participating column; on success the values are read
    /// through `Column::read_value` and written through
    /// `Column::set_value` under the holds taken here.
    pub fn get_row<V1, V2>(&self, c1: &mut Column<V1>, c2: &mut Column<V2>, key: u64) -> (r:
        Result<(), TableError>)
        requires
            self.columns_match(old(c1), old(c2)),
            old(c1).wf(),
            old(c2).wf(),
            old(c1).outer_held(),
            old(c2).outer_held(),
            Self::cell_admission(self.first, old(c1), key),
            Self::cell_admission(self.second, old(c2), key),
        ensures
            final(c1).wf(),
            final(c2).wf(),
            final(c1).same_outer(*old(c1)),
            final(c2).same_outer(*old(c2)),
            final(c1).cells().dom() == old(c1).cells().dom(),
            final(c2).cells().dom() == old(c2).cells().dom(),
            match r {
                Ok(()) => old(c1).contains_key(key) && old(c2).contains_key(key) && Self::cell_held(
                    self.first,
                    old(c1),
                    final(c1),
                    key,
                ) && Self::cell_held(self.second, old(c2), final(c2), key) && final(c1).value_at(
                    key,
                ) == old(c1).value_at(key) && final(c2).value_at(key) == old(c2).value_at(key)
                    && (forall|k: u64|
                    k != key && old(c1).contains_key(k) ==> final(c1).cell(k) == old(c1).cell(k))
                    && (forall|k: u64|
                    k != key && old(c2).contains_key(k) ==> final(c2).cell(k) == old(c2).cell(k)),
                Err(e) => e == TableError::KeyNotFound && (!old(c1).contains_key(key) || !old(c2).contains_key(key)) && final(c1).cells() == old(c1).cells() && final(c2).cells()
                    == old(c2).cells(),
            },
    {
        if !c1.has_key(key) || !c2.has_key(key) {
            return Err(TableError::KeyNotFound);
        }
        if self.first.writable {
            c1.write_cell(key);
        } else {
            c1.read_cell(key);
        }
        if self.second.writable {
            c2.write_cell(key);
        } else {
            c2.read_cell(key);
        }
        Ok(())
    }

    /// Give back the per-cell holds `get_row` took at `key`, by mode.
    pub fn release_row<V1, V2>(&self, c1: &mut Column<V1>, c2: &mut Column<V2>, key: u64)
        requires
            self.columns_match(old(c1), old(c2)),
            old(c1).wf(),
            old(c2).wf(),
            old(c1).contains_key(key),
            old(c2).contains_key(key),
            if self.first.writable {
                old(c1).cell(key).writer()
            } else {
                old(c1).cell(key).readers() > 0
            },
            if self.second.writable {
                old(c2).cell(key).writer()
            } else {
                old(c2).cell(key).readers() > 0
            },
        ensures
            final(c1).wf(),
            final(c2).wf(),
            final(c1).same_outer(*old(c1)),
            final(c2).same_outer(*old(c2)),
            final(c1).cells().dom() == old(c1).cells().dom(),
            final(c2).cells().dom() == old(c2).cells().dom(),
            final(c1).value_at(key) == old(c1).value_at(key),
            final(c2).value_at(key) == old(c2).value_at(key),
            self.first.writable ==> !final(c1).cell(key).writer(),
            !self.first.writable ==> final(c1).cell(key).readers() == old(c1).cell(key).readers()
                - 1,
            self.second.writable ==> !final(c2).cell(key).writer(),
            !self.second.writable ==> final(c2).cell(key).readers() == old(c2).cell(key).readers()
                - 1,
            forall|k: u64|
                k != key && old(c1).contains_key(k) ==> final(c1).cell(k) == old(c1).cell(k),
            forall|k: u64|
                k != key && old(c2).contains_key(k) ==> final(c2).cell(k) == old(c2).cell(k),
    {
        if self.first.writable {
            c1.release_write_cell(key);
        } else {
            c1.release_read_cell(key);
        }
        if self.second.writable {
            c2.release_write_cell(key);
        } else {
            c2.release_read_cell(key);
        }
    }
    /// Insert a row at `key`: register the key under this shape in the
    /// key index first, then upsert each column's slice of `values` at
    /// `key` behind a fresh cell lock, in field order. Hands back the
    /// cell each column evicted, if any (upsert: an existing row is
    /// overwritten silently). Requires the structural session's
    /// exclusive outer holds.
    pub fn insert<V1, V2>(
        &self,
        index: &mut KeyIndex,
        c1: &mut Column<V1>,
        c2: &mut Column<V2>,
        key: u64,
        values: (V1, V2),
    ) -> (prev: (Option<RwCell<V1>>, Option<RwCell<V2>>))
        requires
            self.columns_match(old(c1), old(c2)),
            old(index).wf(),
            old(c1).wf(),
            old(c2).wf(),
            old(c1).outer_writer(),
            old(c2).outer_writer(),
        ensures
            final(index).wf(),
            final(c1).wf(),
            final(c2).wf(),
            final(c1).same_outer(*old(c1)),
            final(c2).same_outer(*old(c2)),
            final(index).index() == old(index).index().insert(
                self.id,
                (if old(index).registered(self.id) {
                    old(index).keys_of(self.id)
                } else {
                    Set::<u64>::empty()
                }).insert(key),
            ),
            final(index).registered(self.id),
            final(index).keys_of(self.id).contains(key),
            final(c1).contains_key(key),
            final(c1).value_at(key) == values.0,
            final(c1).cell(key).readers() == 0,
            !final(c1).cell(key).writer(),
            final(c1).cells().dom() =~= old(c1).cells().dom().insert(key),
            final(c1).raw() == old(c1).raw().insert(key, values.0),
            final(c2).contains_key(key),
            final(c2).value_at(key) == values.1,
            final(c2).cell(key).readers() == 0,
            !final(c2).cell(key).writer(),
            final(c2).cells().dom() =~= old(c2).cells().dom().insert(key),
            final(c2).raw() == old(c2).raw().insert(key, values.1),
            forall|k: u64|
                k != key && old(c1).contains_key(k) ==> final(c1).contains_key(k) && final(c1).cell(
                    k,
                ) == old(c1).cell(k),
            forall|k: u64|
                k != key && old(c2).contains_key(k) ==> final(c2).contains_key(k) && final(c2).cell(
                    k,
                ) == old(c2).cell(k),
            match prev.0 {
                Some(cell) => old(c1).contains_key(key) && cell == old(c1).cell(key),
                None => !old(c1).contains_key(key),
            },
            match prev.1 {
                Some(cell) => old(c2).contains_key(key) && cell == old(c2).cell(key),
                None => !old(c2).contains_key(key),
            },
    {
        let (v1, v2) = values;
        index.insert_key(self.id, key);
        let p1 = c1.insert(key, v1);
        let p2 = c2.insert(key, v2);
        (p1, p2)
    }

    /// Remove the row at `key`: unregister it from this shape's key
    /// index, then remove it from every participating column, handing
    /// back the removed cell per column. Fails with `UnknownColumnSet`
    /// when this shape was never registered and with `KeyNotFound` when
    /// `key` is not cached for this shape; either failure touches
    /// nothing. Requires the structural session's exclusive outer holds.
    pub fn remove<V1, V2>(
        &self,
        index: &mut KeyIndex,
        c1: &mut Column<V1>,
        c2: &mut Column<V2>,
        key: u64,
    ) -> (r: Result<(Option<RwCell<V1>>, Option<RwCell<V2>>), TableError>)
        requires
            self.columns_match(old(c1), old(c2)),
            old(index).wf(),
            old(c1).wf(),
            old(c2).wf(),
            old(c1).outer_writer(),
            old(c2).outer_writer(),
        ensures
            final(index).wf(),
            final(c1).wf(),
            final(c2).wf(),
            final(c1).same_outer(*old(c1)),
            final(c2).same_outer(*old(c2)),
            match r {
                Ok(prev) => old(index).registered(self.id) && old(index).keys_of(
                    self.id,
                ).contains(key) && final(index).index() == old(index).index().insert(
                    self.id,
                    old(index).keys_of(self.id).remove(key),
                ) && !final(index).keys_of(self.id).contains(key) && final(c1).cells() == old(c1).cells().remove(key) && final(c2).cells() == old(c2).cells().remove(key) && !final(c1).contains_key(key) && !final(c2).contains_key(key) && (match prev.0 {
                    Some(cell) => old(c1).contains_key(key) && cell == old(c1).cell(key),
                    None => !old(c1).contains_key(key),
                }) && (match prev.1 {
                    Some(cell) => old(c2).contains_key(key) && cell == old(c2).cell(key),
                    None => !old(c2).contains_key(key),
                }),
                Err(e) => final(index).index() == old(index).index() && final(c1).cells() == old(c1).cells() && final(c2).cells() == old(c2).cells() && ((e
                    == TableError::UnknownColumnSet && !old(index).registered(self.id)) || (e
                    == TableError::KeyNotFound && old(index).registered(self.id) && !old(index).keys_of(self.id).contains(key))),
            },
    {
        match index.has_key(self.id, key) {
            Err(e) => Err(e),
            Ok(false) => Err(TableError::KeyNotFound),
            Ok(true) => {
                let _removed = index.remove_key(self.id, key);
                let p1 = c1.remove(key);
                let p2 = c2.remove(key);
                Ok((p1, p2))
            },
        }
    }

    /// A point-in-time copy of the keys cached for this shape, each
    /// once: safe against concurrent structural changes from other
    /// shapes, stale towards later changes on this one. Fails with
    /// `UnknownColumnSet` when this shape was never registered.
    pub fn keys(&self, index: &KeyIndex) -> (r: Result<Vec<u64>, TableError>)
        requires
            index.wf(),
        ensures
            match r {
                Ok(v) => index.registered(self.id) && v@.no_duplicates() && v@.to_set()
                    == index.keys_of(self.id),
                Err(e) => e == TableError::UnknownColumnSet && !index.registered(self.id),
            },
    {
        Keys::keys(index, self.id)
    }

    /// Batched insert: group the batch per column, register all keys
    /// under this shape in one bulk key-index update, then run one bulk
    /// upsert per column. Observably equivalent to inserting the pairs
    /// one by one, in order. Requires the structural session's exclusive
    /// outer holds.
    pub fn extend<V1, V2>(
        &self,
        index: &mut KeyIndex,
        c1: &mut Column<V1>,
        c2: &mut Column<V2>,
        values: Vec<(u64, (V1, V2))>,
    )
        requires
            self.columns_match(old(c1), old(c2)),
            old(index).wf(),
            old(c1).wf(),
            old(c2).wf(),
            old(c1).outer_writer(),
            old(c2).outer_writer(),
        ensures
            final(index).wf(),
            final(c1).wf(),
            final(c2).wf(),
            final(c1).same_outer(*old(c1)),
            final(c2).same_outer(*old(c2)),
            final(index).index() == old(index).index().insert(
                self.id,
                (if old(index).registered(self.id) {
                    old(index).keys_of(self.id)
                } else {
                    Set::<u64>::empty()
                }).union(batch_keys(values@).to_set()),
            ),
            final(c1).raw() == insert_all(old(c1).raw(), firsts(values@)),
            final(c2).raw() == insert_all(old(c2).raw(), seconds(values@)),
            forall|k: u64| #[trigger]
                final(c1).contains_key(k) <==> old(c1).contains_key(k) || batch_has(
                    firsts(values@),
                    k,
                ),
            forall|k: u64| #[trigger]
                final(c2).contains_key(k) <==> old(c2).contains_key(k) || batch_has(
                    seconds(values@),
                    k,
                ),
            forall|k: u64|
                batch_has(firsts(values@), k) ==> final(c1).cell(k).readers() == 0 && !final(c1).cell(k).writer(),
            forall|k: u64|
                batch_has(seconds(values@), k) ==> final(c2).cell(k).readers() == 0 && !final(c2).cell(k).writer(),
            forall|k: u64|
                !batch_has(firsts(values@), k) && old(c1).contains_key(k) ==> final(c1).cell(k)
                    == old(c1).cell(k),
            forall|k: u64|
                !batch_has(seconds(values@), k) && old(c2).contains_key(k) ==> final(c2).cell(k)
                    == old(c2).cell(k),
    {
        let ghost orig = values@;
        let mut values = values;
        let mut keys_vec: Vec<u64> = Vec::with_capacity(values.len());
        let mut b1: Vec<(u64, V1)> = Vec::with_capacity(values.len());
        let mut b2: Vec<(u64, V2)> = Vec::with_capacity(values.len());
        let ghost mut i: int = 0;
        proof {
            assert(keys_vec@ =~= batch_keys(orig.take(0)));
            assert(b1@ =~= firsts(orig.take(0)));
            assert(b2@ =~= seconds(orig.take(0)));
        }
        while values.len() > 0
            invariant
                0 <= i <= orig.len(),
                values@ == orig.skip(i),
                keys_vec@ == batch_keys(orig.take(i)),
                b1@ == firsts(orig.take(i)),
                b2@ == seconds(orig.take(i)),
            decreases values@.len(),
        {
            let (k, vs) = values.remove(0);
            let (v1, v2) = vs;
            keys_vec.push(k);
            b1.push((k, v1));
            b2.push((k, v2));
            proof {
                assert(orig.skip(i)[0] == orig[i]);
                assert(values@ =~= orig.skip(i + 1));
                assert(keys_vec@ =~= batch_keys(orig.take(i + 1)));
                assert(b1@ =~= firsts(orig.take(i + 1)));
                assert(b2@ =~= seconds(orig.take(i + 1)));
                i = i + 1;
            }
        }
        proof {
            assert(orig.take(i) =~= orig);
            assert(keys_vec@ == batch_keys(orig));
            assert(b1@ == firsts(orig));
            assert(b2@ == seconds(orig));
        }
        index.extend_keys(self.id, keys_vec);
        c1.extend(b1);
        c2.extend(b2);
    }
}

/// Law: `extend` is observably equivalent to sequential `insert` calls
/// for the same batch.
///
/// Per column, `extend` leaves `insert_all(old, batch)`; one more
/// `insert` after a batch leaves exactly `insert_all` of the batch
/// grown by that pair, so by induction the bulk upsert and the run of
/// single upserts end in the same mapping. (With the batch's keys
/// distinct — the case the equivalence is claimed for — no pair
/// overwrites another; the fold makes it hold even with duplicates,
/// a later pair winning in both forms.) The key-index side is
/// `lemma_bulk_insert_is_sequential`.
pub proof fn lemma_extend_is_sequential_inserts<W>(m: Map<u64, W>, batch: Seq<(u64, W)>, pair: (
    u64,
    W,
))
    ensures
        insert_all(m, batch.push(pair)) == insert_all(m, batch).insert(pair.0, pair.1),
        insert_all(m, Seq::<(u64, W)>::empty()) == m,
{
    assert(batch.push(pair).drop_last() =~= batch);
    assert(batch.push(pair).last() == pair);
}

/// Law: a row fetched immediately after an insert holds the inserted
/// values.
///
/// `Row::insert` leaves `key` present in both columns, each value
/// behind a fresh, entirely unheld cell; so `get_row` at `key` meets
/// its per-cell admission in either field mode, cannot fail, and the
/// values it takes holds on — read back through `Column::read_value` —
/// are exactly the inserted ones.
pub proof fn lemma_insert_then_get_row<V1, V2>(
    row: Row,
    c1: Column<V1>,
    c2: Column<V2>,
    key: u64,
    values: (V1, V2),
)
    requires
        c1.contains_key(key),
        c1.value_at(key) == values.0,
        c1.cell(key).readers() == 0,
        !c1.cell(key).writer(),
        c2.contains_key(key),
        c2.value_at(key) == values.1,
        c2.cell(key).readers() == 0,
        !c2.cell(key).writer(),
    ensures
        Row::cell_admission(row.first, &c1, key),
        Row::cell_admission(row.second, &c2, key),
        c1.contains_key(key) && c2.contains_key(key),
        c1.value_at(key) == values.0 && c2.value_at(key) == values.1,
{
}

/// Law: a removed row is gone. After `Row::remove` returns `Ok`, the
/// key is absent from every participating column — so `get_row` for it
/// must return `KeyNotFound` — and absent from the shape's key index,
/// so the shape's `keys` snapshot no longer carries it.
pub proof fn lemma_remove_then_get_row_fails<V1, V2>(
    row: Row,
    index: KeyIndex,
    c1: Column<V1>,
    c2: Column<V2>,
    key: u64,
)
    requires
        index.wf(),
        index.registered(row.id),
        !index.keys_of(row.id).contains(key),
        !c1.contains_key(key),
        !c2.contains_key(key),
    ensures
        !c1.contains_key(key) || !c2.contains_key(key),
        forall|snapshot: Seq<u64>|
            snapshot.to_set() == index.keys_of(row.id) ==> !snapshot.contains(key),
{
    assert forall|snapshot: Seq<u64>|
        snapshot.to_set() == index.keys_of(row.id) implies !snapshot.contains(key) by {
        if snapshot.contains(key) {
            assert(snapshot.to_set().contains(key));
        }
    }
}

/// Law: two row sessions touching disjoint keys in the same column
/// proceed without blocking each other once both hold the outer lock.
///
/// The outer lock admits both sessions at once in read mode (shared
/// holds only count up), and one session taking its per-cell hold at
/// `k1` changes no other key's cell; so the other session's per-cell
/// admission at `k2` is exactly what it was before, in either field
/// mode.
pub proof fn lemma_disjoint_keys_do_not_block<V>(
    field: RowField,
    pre: Column<V>,
    post: Column<V>,
    k1: u64,
    k2: u64,
)
    requires
        k1 != k2,
        post.cells().dom() == pre.cells().dom(),
        forall|k: u64| k != k1 && pre.contains_key(k) ==> post.cell(k) == pre.cell(k),
        Row::cell_admission(field, &pre, k2),
    ensures
        Row::cell_admission(field, &post, k2),
{
    if post.contains_key(k2) {
        assert(post.cell(k2) == pre.cell(k2));
    }
}


} // verus!
