//! The per-key fine-grained lock layer of a column: a unique-key mapping
//! from keys to locked cells.
//!
//! The backing store is an association list in insertion order, viewed in
//! specifications as a `Map` from key to cell. Every structural operation
//! states its effect on that view; the cell-lock operations state their
//! effect on the one addressed cell and that every other cell is left
//! untouched.

use vstd::prelude::*;

use crate::key_value_map::KeyValueMap;
use crate::lock::Lock;
use crate::lock::RwCell;

verus! {

/// True when no key occurs twice in the backing sequence.
pub open spec fn distinct_keys<C>(s: Seq<(u64, C)>) -> bool {
    forall|i: int, j: int| 0 <= i < j < s.len() ==> s[i].0 != s[j].0
}

/// Whether a batch of pairs carries an entry for `key`.
pub open spec fn batch_has<W>(s: Seq<(u64, W)>, key: u64) -> bool {
    exists|j: int| 0 <= j < s.len() && s[j].0 == key
}

/// The map obtained by upserting every pair of `s` into `m`, in order:
/// a later pair for the same key wins.
pub open spec fn insert_all<W>(m: Map<u64, W>, s: Seq<(u64, W)>) -> Map<u64, W>
    decreases s.len(),
{
    if s.len() == 0 {
        m
    } else {
        insert_all(m, s.drop_last()).insert(s.last().0, s.last().1)
    }
}

/// Looking one pair further into a batch adds exactly that pair's key.
pub proof fn lemma_batch_step<W>(s: Seq<(u64, W)>, i: int)
    requires
        0 <= i < s.len(),
    ensures
        forall|k: u64| #[trigger]
            batch_has(s.take(i + 1), k) <==> batch_has(s.take(i), k) || s[i].0 == k,
{
    assert forall|k: u64| #[trigger] batch_has(s.take(i + 1), k) implies batch_has(s.take(i), k)
        || s[i].0 == k by {
        let j = choose|j: int| 0 <= j < s.take(i + 1).len() && (#[trigger] s.take(i + 1)[j]).0 == k;
        if j < i {
            assert(s.take(i)[j].0 == k);
        }
    }
    assert forall|k: u64| batch_has(s.take(i), k) || s[i].0 == k implies #[trigger] batch_has(
        s.take(i + 1),
        k,
    ) by {
        if batch_has(s.take(i), k) {
            let j = choose|j: int| 0 <= j < s.take(i).len() && (#[trigger] s.take(i)[j]).0 == k;
            assert(s.take(i + 1)[j].0 == k);
        } else {
            assert(s.take(i + 1)[i].0 == k);
        }
    }
}

/// The map an entry sequence denotes: later entries win.
pub open spec fn seq_map<C>(s: Seq<(u64, C)>) -> Map<u64, C>
    decreases s.len(),
{
    if s.len() == 0 {
        Map::empty()
    } else {
        seq_map(s.drop_last()).insert(s.last().0, s.last().1)
    }
}

/// A key is in the denoted map exactly when some entry carries it.
pub proof fn lemma_seq_map_contains<C>(s: Seq<(u64, C)>, key: u64)
    ensures
        seq_map(s).dom().contains(key) <==> exists|i: int| 0 <= i < s.len() && s[i].0 == key,
    decreases s.len(),
{
    if s.len() > 0 {
        lemma_seq_map_contains(s.drop_last(), key);
        if s.last().0 == key {
            assert(s[s.len() - 1].0 == key);
        } else {
            if exists|i: int| 0 <= i < s.len() && s[i].0 == key {
                let i = choose|i: int| 0 <= i < s.len() && s[i].0 == key;
                assert(i < s.len() - 1);
                assert(s.drop_last()[i].0 == key);
            }
        }
    }
}

/// With distinct keys, the denoted map sends each entry's key to its value.
pub proof fn lemma_seq_map_index<C>(s: Seq<(u64, C)>, i: int)
    requires
        distinct_keys(s),
        0 <= i < s.len(),
    ensures
        seq_map(s).dom().contains(s[i].0),
        seq_map(s)[s[i].0] == s[i].1,
    decreases s.len(),
{
    if i < s.len() - 1 {
        lemma_seq_map_index(s.drop_last(), i);
        assert(s.drop_last()[i] == s[i]);
        assert(s.last().0 != s[i].0);
    }
}

/// Overwriting one entry's value in place overwrites that one binding.
pub proof fn lemma_seq_map_update<C>(s: Seq<(u64, C)>, i: int, value: C)
    requires
        distinct_keys(s),
        0 <= i < s.len(),
    ensures
        seq_map(s.update(i, (s[i].0, value))) =~= seq_map(s).insert(s[i].0, value),
    decreases s.len(),
{
    let key = s[i].0;
    let t = s.update(i, (key, value));
    if i == s.len() - 1 {
        assert(t.drop_last() =~= s.drop_last());
    } else {
        lemma_seq_map_update(s.drop_last(), i, value);
        assert(t.drop_last() =~= s.drop_last().update(i, (key, value)));
        assert(t.last() == s.last());
        assert(s.last().0 != key);
    }
}

/// Removing one entry removes that one binding.
pub proof fn lemma_seq_map_remove<C>(s: Seq<(u64, C)>, i: int)
    requires
        distinct_keys(s),
        0 <= i < s.len(),
    ensures
        seq_map(s.remove(i)) =~= seq_map(s).remove(s[i].0),
    decreases s.len(),
{
    let key = s[i].0;
    if i == s.len() - 1 {
        assert(s.remove(i) =~= s.drop_last());
        lemma_seq_map_contains(s.drop_last(), key);
        assert(forall|j: int|
            0 <= j < s.drop_last().len() ==> s.drop_last()[j] == s[j] && s[j].0 != key);
        assert(!seq_map(s.drop_last()).dom().contains(key));
    } else {
        lemma_seq_map_remove(s.drop_last(), i);
        assert(s.remove(i).drop_last() =~= s.drop_last().remove(i));
        assert(s.remove(i).last() == s.last());
        assert(s.last().0 != key);
    }
}

/// The unique-key mapping from keys to lock cells inside one column.
pub struct CellMap<V> {
    entries: Vec<(u64, RwCell<V>)>,
}

impl<V> CellMap<V> {
    /// The mapping as a whole, key to cell.
    pub closed spec fn cells(&self) -> Map<u64, RwCell<V>> {
        seq_map(self.entries@)
    }

    /// Well-formed: no key is stored twice.
    pub closed spec fn wf(&self) -> bool {
        distinct_keys(self.entries@)
    }

    /// Whether `key` has an entry.
    pub open spec fn contains_key(&self, key: u64) -> bool {
        self.cells().dom().contains(key)
    }

    /// The cell stored at `key`.
    pub open spec fn cell(&self, key: u64) -> RwCell<V>
        recommends
            self.contains_key(key),
    {
        self.cells()[key]
    }

    /// The raw value stored at `key`.
    pub open spec fn value_at(&self, key: u64) -> V
        recommends
            self.contains_key(key),
    {
        self.cell(key).value()
    }

    /// The mapping with every cell's lock state forgotten: key to raw value.
    pub open spec fn raw(&self) -> Map<u64, V> {
        self.cells().map_values(|c: RwCell<V>| c.value())
    }

    /// Fresh, empty mapping.
    pub fn new() -> (r: Self)
        ensures
            r.wf(),
            r.cells() == Map::<u64, RwCell<V>>::empty(),
    {
        CellMap { entries: Vec::new() }
    }

    fn find(&self, key: u64) -> (r: Option<usize>)
        requires
            self.wf(),
        ensures
            match r {
                Some(i) => i < self.entries@.len() && self.entries@[i as int].0 == key
                    && self.contains_key(key) && self.cell(key) == self.entries@[i as int].1,
                None => !self.contains_key(key),
            },
    {
        proof {
            lemma_seq_map_contains(self.entries@, key);
        }
        let n: usize = self.entries.len();
        let mut i: usize = 0;
        while i < n
            invariant
                self.wf(),
                n == self.entries@.len(),
                i <= n,
                forall|j: int| 0 <= j < i ==> self.entries@[j].0 != key,
            decreases n - i,
        {
            if self.entries[i].0 == key {
                proof {
                    lemma_seq_map_index(self.entries@, i as int);
                }
                return Some(i);
            }
            i = i + 1;
        }
        None
    }

    /// Shared borrow of the cell at `key`, if present.
    pub fn get(&self, key: u64) -> (r: Option<&RwCell<V>>)
        requires
            self.wf(),
        ensures
            match r {
                Some(cell) => self.contains_key(key) && *cell == self.cell(key),
                None => !self.contains_key(key),
            },
    {
        match self.find(key) {
            Some(i) => Some(&self.entries[i].1),
            None => None,
        }
    }

    fn put(&mut self, key: u64, cell: RwCell<V>) -> (prev: Option<RwCell<V>>)
        requires
            old(self).wf(),
        ensures
            final(self).wf(),
            final(self).cells() == old(self).cells().insert(key, cell),
            final(self).cells().dom() =~= old(self).cells().dom().insert(key),
            match prev {
                Some(c) => old(self).contains_key(key) && c == old(self).cell(key),
                None => !old(self).contains_key(key),
            },
    {
        match self.find(key) {
            Some(i) => {
                proof {
                    lemma_seq_map_update(self.entries@, i as int, cell);
                }
                let (_, prev_cell) = self.entries.remove(i);
                self.entries.insert(i, (key, cell));
                proof {
                    assert(self.entries@ =~= old(self).entries@.update(i as int, (key, cell)));
                    assert(forall|j: int|
                        0 <= j < self.entries@.len() ==> self.entries@[j].0 == old(
                            self,
                        ).entries@[j].0);
                    assert(self.cells() =~= old(self).cells().insert(key, cell));
                    assert(self.cells().dom() =~= old(self).cells().dom().insert(key));
                }
                Some(prev_cell)
            },
            None => {
                proof {
                    lemma_seq_map_contains(self.entries@, key);
                }
                self.entries.push((key, cell));
                proof {
                    assert(self.entries@.drop_last() =~= old(self).entries@);
                    assert(self.cells() == old(self).cells().insert(key, cell));
                    assert(self.cells().dom() =~= old(self).cells().dom().insert(key));
                    assert forall|a: int, b: int|
                        0 <= a < b < self.entries@.len() implies self.entries@[a].0
                        != self.entries@[b].0 by {
                        if b == self.entries@.len() - 1 {
                            assert(self.entries@[a] == old(self).entries@[a]);
                            assert(old(self).entries@[a].0 != key);
                        }
                    }
                }
                None
            },
        }
    }

    /// Insert `value` at `key` behind a fresh, unheld lock; hands back the
    /// evicted cell when the key was already present (upsert).
    pub fn insert(&mut self, key: u64, value: V) -> (prev: Option<RwCell<V>>)
        requires
            old(self).wf(),
        ensures
            final(self).wf(),
            final(self).contains_key(key),
            final(self).value_at(key) == value,
            final(self).cell(key).readers() == 0,
            !final(self).cell(key).writer(),
            final(self).cells().dom() =~= old(self).cells().dom().insert(key),
            final(self).raw() == old(self).raw().insert(key, value),
            forall|k: u64|
                k != key && old(self).contains_key(k) ==> final(self).contains_key(k)
                    && final(self).cell(k) == old(self).cell(k),
            match prev {
                Some(cell) => old(self).contains_key(key) && cell == old(self).cell(key),
                None => !old(self).contains_key(key),
            },
    {
        let fresh: RwCell<V> = RwCell::from_value(value);
        let prev = self.put(key, fresh);
        proof {
            assert(self.raw() =~= old(self).raw().insert(key, value));
        }
        prev
    }

    /// Remove the entry at `key`, handing back its cell if present.
    pub fn remove(&mut self, key: u64) -> (prev: Option<RwCell<V>>)
        requires
            old(self).wf(),
        ensures
            final(self).wf(),
            final(self).cells() == old(self).cells().remove(key),
            !final(self).contains_key(key),
            match prev {
                Some(cell) => old(self).contains_key(key) && cell == old(self).cell(key),
                None => !old(self).contains_key(key),
            },
    {
        match self.find(key) {
            Some(i) => {
                proof {
                    lemma_seq_map_remove(self.entries@, i as int);
                }
                let (_, prev_cell) = self.entries.remove(i);
                proof {
                    assert(self.entries@ =~= old(self).entries@.remove(i as int));
                    assert(self.cells() =~= old(self).cells().remove(key));
                    assert forall|a: int, b: int|
                        0 <= a < b < self.entries@.len() implies self.entries@[a].0
                        != self.entries@[b].0 by {
                        let sa: int = if a < i as int {
                            a
                        } else {
                            a + 1
                        };
                        let sb: int = if b < i as int {
                            b
                        } else {
                            b + 1
                        };
                        assert(self.entries@[a] == old(self).entries@[sa]);
                        assert(self.entries@[b] == old(self).entries@[sb]);
                    }
                }
                Some(prev_cell)
            },
            None => {
                proof {
                    assert(self.cells() =~= old(self).cells().remove(key));
                }
                None
            },
        }
    }

    /// Acquire a shared hold on `key`'s cell. Succeeds exactly when the
    /// key is present. Admission: the addressed cell is not write-held
    /// (a blocking backend would wait for that here).
    pub fn read_cell(&mut self, key: u64) -> (r: bool)
        requires
            old(self).wf(),
            old(self).contains_key(key) ==> !old(self).cell(key).writer() && old(self).cell(key).readers() < u64::MAX,
        ensures
            final(self).wf(),
            r == old(self).contains_key(key),
            final(self).cells().dom() == old(self).cells().dom(),
            r ==> final(self).cell(key).readers() == old(self).cell(key).readers() + 1 && final(self).cell(key).writer() == old(self).cell(key).writer() && final(self).value_at(key)
                == old(self).value_at(key),
            forall|k: u64|
                k != key && old(self).contains_key(k) ==> final(self).cell(k) == old(self).cell(k),
            !r ==> final(self).cells() == old(self).cells(),
    {
        match self.find(key) {
            Some(i) => {
                let e = &mut self.entries[i];
                e.1.read();
                proof {
                    self.lemma_one_cell_changed(old(self), i as int, key);
                }
                true
            },
            None => false,
        }
    }

    /// Acquire the exclusive hold on `key`'s cell. Succeeds exactly when
    /// the key is present. Admission: the addressed cell is entirely
    /// unheld (a blocking backend would wait for that here).
    pub fn write_cell(&mut self, key: u64) -> (r: bool)
        requires
            old(self).wf(),
            old(self).contains_key(key) ==> !old(self).cell(key).writer() && old(self).cell(key).readers() == 0,
        ensures
            final(self).wf(),
            r == old(self).contains_key(key),
            final(self).cells().dom() == old(self).cells().dom(),
            r ==> final(self).cell(key).writer() && final(self).cell(key).readers() == 0 && final(self).value_at(key) == old(self).value_at(key),
            forall|k: u64|
                k != key && old(self).contains_key(k) ==> final(self).cell(k) == old(self).cell(k),
            !r ==> final(self).cells() == old(self).cells(),
    {
        match self.find(key) {
            Some(i) => {
                let e = &mut self.entries[i];
                e.1.write();
                proof {
                    self.lemma_one_cell_changed(old(self), i as int, key);
                }
                true
            },
            None => false,
        }
    }

    /// Give back one shared hold on `key`'s cell.
    pub fn release_read_cell(&mut self, key: u64)
        requires
            old(self).wf(),
            old(self).contains_key(key),
            old(self).cell(key).readers() > 0,
        ensures
            final(self).wf(),
            final(self).cells().dom() == old(self).cells().dom(),
            final(self).cell(key).readers() == old(self).cell(key).readers() - 1,
            final(self).cell(key).writer() == old(self).cell(key).writer(),
            final(self).value_at(key) == old(self).value_at(key),
            forall|k: u64|
                k != key && old(self).contains_key(k) ==> final(self).cell(k) == old(self).cell(k),
    {
        match self.find(key) {
            Some(i) => {
                let e = &mut self.entries[i];
                e.1.release_read();
                proof {
                    self.lemma_one_cell_changed(old(self), i as int, key);
                }
            },
            None => {
                proof {
                    assert(false);
                }
            },
        }
    }

    /// Give back the exclusive hold on `key`'s cell.
    pub fn release_write_cell(&mut self, key: u64)
        requires
            old(self).wf(),
            old(self).contains_key(key),
            old(self).cell(key).writer(),
        ensures
            final(self).wf(),
            final(self).cells().dom() == old(self).cells().dom(),
            final(self).cell(key).readers() == old(self).cell(key).readers(),
            !final(self).cell(key).writer(),
            final(self).value_at(key) == old(self).value_at(key),
            forall|k: u64|
                k != key && old(self).contains_key(k) ==> final(self).cell(k) == old(self).cell(k),
    {
        match self.find(key) {
            Some(i) => {
                let e = &mut self.entries[i];
                e.1.release_write();
                proof {
                    self.lemma_one_cell_changed(old(self), i as int, key);
                }
            },
            None => {
                proof {
                    assert(false);
                }
            },
        }
    }

    /// Read the value behind `key`'s cell; any hold on that cell grants it.
    pub fn read_value(&self, key: u64) -> (r: &V)
        requires
            self.wf(),
            self.contains_key(key),
            self.cell(key).readers() > 0 || self.cell(key).writer(),
        ensures
            *r == self.value_at(key),
    {
        match self.find(key) {
            Some(i) => self.entries[i].1.get(),
            None => vstd::pervasive::unreached(),
        }
    }

    /// Replace the value behind `key`'s cell; only its write holder may.
    pub fn set_value(&mut self, key: u64, value: V)
        requires
            old(self).wf(),
            old(self).contains_key(key),
            old(self).cell(key).writer(),
        ensures
            final(self).wf(),
            final(self).cells().dom() == old(self).cells().dom(),
            final(self).value_at(key) == value,
            final(self).cell(key).readers() == old(self).cell(key).readers(),
            final(self).cell(key).writer() == old(self).cell(key).writer(),
            forall|k: u64|
                k != key && old(self).contains_key(k) ==> final(self).cell(k) == old(self).cell(k),
    {
        match self.find(key) {
            Some(i) => {
                let e = &mut self.entries[i];
                e.1.set(value);
                proof {
                    self.lemma_one_cell_changed(old(self), i as int, key);
                }
            },
            None => {
                proof {
                    assert(false);
                }
            },
        }
    }

    /// After an in-place change of the cell at position `i` (key `key`,
    /// the key itself untouched), the map view is the old view with that
    /// one binding overwritten.
    proof fn lemma_one_cell_changed(&self, pre: &Self, i: int, key: u64)
        requires
            pre.wf(),
            0 <= i < pre.entries@.len(),
            pre.entries@[i].0 == key,
            self.entries@ == pre.entries@.update(i, (key, self.entries@[i].1)),
        ensures
            self.wf(),
            self.cells() == pre.cells().insert(key, self.entries@[i].1),
            self.cells().dom() == pre.cells().dom(),
            self.contains_key(key),
            self.cell(key) == self.entries@[i].1,
            forall|k: u64| k != key && pre.contains_key(k) ==> self.cell(k) == pre.cell(k),
    {
        lemma_seq_map_update(pre.entries@, i, self.entries@[i].1);
        assert(self.cells() =~= pre.cells().insert(key, self.entries@[i].1));
        lemma_seq_map_index(pre.entries@, i);
        assert(self.cells().dom() =~= pre.cells().dom());
        assert(distinct_keys(self.entries@));
    }

    /// Insert every pair of the batch in order, each behind a fresh,
    /// unheld lock: one bulk upsert, a later duplicate key winning.
    pub fn extend(&mut self, values: Vec<(u64, V)>)
        requires
            old(self).wf(),
        ensures
            final(self).wf(),
            final(self).raw() == insert_all(old(self).raw(), values@),
            forall|k: u64| #[trigger]
                final(self).contains_key(k) <==> old(self).contains_key(k) || batch_has(
                    values@,
                    k,
                ),
            forall|k: u64|
                batch_has(values@, k) ==> final(self).cell(k).readers() == 0 && !final(self).cell(k).writer(),
            forall|k: u64|
                !batch_has(values@, k) && old(self).contains_key(k) ==> final(self).cell(k) == old(self).cell(k),
    {
        let ghost orig = values@;
        let mut values = values;
        let ghost mut i: int = 0;
        proof {
            assert(orig.take(0) =~= Seq::<(u64, V)>::empty());
        }
        while values.len() > 0
            invariant
                self.wf(),
                0 <= i <= orig.len(),
                values@ == orig.skip(i),
                self.raw() == insert_all(old(self).raw(), orig.take(i)),
                forall|k: u64| #[trigger]
                    self.contains_key(k) <==> old(self).contains_key(k) || batch_has(
                        orig.take(i),
                        k,
                    ),
                forall|k: u64|
                    batch_has(orig.take(i), k) ==> self.cell(k).readers() == 0 && !self.cell(
                        k,
                    ).writer(),
                forall|k: u64|
                    !batch_has(orig.take(i), k) && old(self).contains_key(k) ==> self.cell(k)
                        == old(self).cell(k),
            decreases values@.len(),
        {
            let ghost pre = *self;
            let (key, value) = values.remove(0);
            proof {
                assert(orig.skip(i)[0] == orig[i]);
                assert(values@ =~= orig.skip(i + 1));
            }
            self.insert(key, value);
            proof {
                lemma_batch_step(orig, i);
                assert(orig.take(i + 1).drop_last() =~= orig.take(i));
                assert(orig.take(i + 1).last() == orig[i]);
                assert(self.raw() == pre.raw().insert(key, value));
                assert(self.raw() =~= insert_all(old(self).raw(), orig.take(i + 1)));
                i = i + 1;
            }
        }
        proof {
            assert(orig.take(i) =~= orig);
        }
    }

    /// The stored keys, one copy each, in storage order.
    pub fn keys(&self) -> (r: Vec<u64>)
        requires
            self.wf(),
        ensures
            r@.no_duplicates(),
            r@.to_set() =~= self.cells().dom(),
            forall|k: u64| self.contains_key(k) ==> r@.contains(k),
            forall|i: int| 0 <= i < r@.len() ==> self.contains_key(r@[i]),
    {
        let n: usize = self.entries.len();
        let mut r: Vec<u64> = Vec::new();
        let mut i: usize = 0;
        while i < n
            invariant
                self.wf(),
                n == self.entries@.len(),
                i <= n,
                r@.len() == i,
                forall|j: int| 0 <= j < i ==> r@[j] == self.entries@[j].0,
            decreases n - i,
        {
            let k: u64 = self.entries[i].0;
            r.push(k);
            i = i + 1;
        }
        proof {
            assert forall|a: int, b: int| 0 <= a < b < r@.len() implies r@[a] != r@[b] by {}
            assert forall|k: u64| r@.to_set().contains(k) implies self.cells().dom().contains(
                k,
            ) by {
                let j = choose|j: int| 0 <= j < r@.len() && r@[j] == k;
                lemma_seq_map_index(self.entries@, j);
            }
            assert forall|k: u64| self.cells().dom().contains(k) implies r@.to_set().contains(
                k,
            ) by {
                lemma_seq_map_contains(self.entries@, k);
                let j = choose|j: int| 0 <= j < self.entries@.len() && self.entries@[j].0 == k;
                assert(r@[j] == k);
            }
        }
        r
    }
}

impl<V> KeyValueMap<RwCell<V>> for CellMap<V> {
    closed spec fn entries(&self) -> Map<u64, RwCell<V>> {
        self.cells()
    }

    closed spec fn wf(&self) -> bool {
        distinct_keys(self.entries@)
    }

    fn empty() -> (r: Self) {
        CellMap::new()
    }

    fn insert(&mut self, key: u64, value: RwCell<V>) -> (prev: Option<RwCell<V>>) {
        self.put(key, value)
    }

    fn extend(&mut self, values: Vec<(u64, RwCell<V>)>) {
        let ghost orig = values@;
        let mut values = values;
        let ghost mut i: int = 0;
        proof {
            assert(orig.take(0) =~= Seq::<(u64, RwCell<V>)>::empty());
        }
        while values.len() > 0
            invariant
                CellMap::wf(self),
                0 <= i <= orig.len(),
                values@ == orig.skip(i),
                self.cells() == insert_all(KeyValueMap::entries(old(self)), orig.take(i)),
            decreases values@.len(),
        {
            let (key, cell) = values.remove(0);
            proof {
                assert(orig.skip(i)[0] == orig[i]);
                assert(values@ =~= orig.skip(i + 1));
            }
            self.put(key, cell);
            proof {
                assert(orig.take(i + 1).drop_last() =~= orig.take(i));
                assert(orig.take(i + 1).last() == orig[i]);
                i = i + 1;
            }
        }
        proof {
            assert(orig.take(i) =~= orig);
        }
    }

    fn get(&self, key: u64) -> (r: Option<&RwCell<V>>) {
        CellMap::get(self, key)
    }

    fn remove(&mut self, key: u64) -> (prev: Option<RwCell<V>>) {
        CellMap::remove(self, key)
    }

    fn keys(&self) -> (r: Vec<u64>) {
        CellMap::keys(self)
    }
}

} // verus!
