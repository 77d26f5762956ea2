//! The key index: for each registered row shape (addressed by its
//! `ColumnSetId`), the set of keys logically present across that shape's
//! columns.
//!
//! `keys` hands out a point-in-time copy, never a live view. Addressing
//! a never-registered shape for querying or removal is the
//! `UnknownColumnSet` failure; insertion registers the shape on demand.

use vstd::prelude::*;

use crate::TableError;
use crate::cell_map::distinct_keys;
use crate::cell_map::lemma_seq_map_contains;
use crate::cell_map::lemma_seq_map_index;
use crate::cell_map::lemma_seq_map_update;
use crate::cell_map::seq_map;
use crate::key_set::KeyList;
use crate::key_set::KeySet;
use crate::key_set::lemma_push_set;
use vstd::set_lib::lemma_len_subset;
use vstd::set_lib::lemma_set_difference_len;
use vstd::seq_lib::seq_to_set_is_finite;

verus! {

/// Capability contract for caching sets of keys by column-set id: what
/// row shapes require from the table they run against.
pub trait Keys: Sized {
    /// The whole cache: column-set id to key set.
    spec fn index(&self) -> Map<u64, Set<u64>>;

    /// Internal well-formedness.
    spec fn wf(&self) -> bool;

    /// Register `key` under `id`, registering `id` itself on demand.
    fn insert_key(&mut self, id: u64, key: u64)
        requires
            old(self).wf(),
        ensures
            final(self).wf(),
            final(self).index() == old(self).index().insert(
                id,
                (if old(self).index().dom().contains(id) {
                    old(self).index()[id]
                } else {
                    Set::<u64>::empty()
                }).insert(key),
            ),
    ;

    /// Register every key of the batch under `id`, registering `id`
    /// itself on demand.
    fn extend_keys(&mut self, id: u64, keys: Vec<u64>)
        requires
            old(self).wf(),
        ensures
            final(self).wf(),
            final(self).index() == old(self).index().insert(
                id,
                (if old(self).index().dom().contains(id) {
                    old(self).index()[id]
                } else {
                    Set::<u64>::empty()
                }).union(keys@.to_set()),
            ),
    ;

    /// Unregister `key` under `id`; reports whether it was registered.
    /// Fails when `id` itself was never registered.
    fn remove_key(&mut self, id: u64, key: u64) -> (r: Result<bool, TableError>)
        requires
            old(self).wf(),
        ensures
            final(self).wf(),
            match r {
                Ok(removed) => old(self).index().dom().contains(id) && final(self).index() == old(
                    self,
                ).index().insert(id, old(self).index()[id].remove(key)) && removed == old(
                    self,
                ).index()[id].contains(key),
                Err(e) => e == TableError::UnknownColumnSet && !old(self).index().dom().contains(
                    id,
                ) && final(self).index() == old(self).index(),
            },
    ;

    /// A point-in-time copy of the keys under `id`, each once.
    /// Fails when `id` was never registered.
    fn keys(&self, id: u64) -> (r: Result<Vec<u64>, TableError>)
        requires
            self.wf(),
        ensures
            match r {
                Ok(v) => self.index().dom().contains(id) && v@.no_duplicates() && v@.to_set()
                    == self.index()[id],
                Err(e) => e == TableError::UnknownColumnSet && !self.index().dom().contains(id),
            },
    ;
}

/// The library's key index: an association list from column-set id to
/// key set, each id held once.
pub struct KeyIndex {
    sets: Vec<(u64, KeyList)>,
}

impl KeyIndex {
    /// Internal view: id to backing key list.
    spec fn lists(&self) -> Map<u64, KeyList> {
        seq_map(self.sets@)
    }

    /// Whether `id` has been registered.
    pub open spec fn registered(&self, id: u64) -> bool {
        self.index().dom().contains(id)
    }

    /// The key set cached under `id`.
    pub open spec fn keys_of(&self, id: u64) -> Set<u64>
        recommends
            self.registered(id),
    {
        self.index()[id]
    }

    /// A fresh index with no shape registered.
    pub fn new() -> (r: Self)
        ensures
            r.wf(),
            r.index() == Map::<u64, Set<u64>>::empty(),
    {
        let r = KeyIndex { sets: Vec::new() };
        proof {
            assert(r.index() =~= Map::<u64, Set<u64>>::empty());
        }
        r
    }

    fn find(&self, id: u64) -> (r: Option<usize>)
        requires
            self.wf(),
        ensures
            match r {
                Some(i) => i < self.sets@.len() && self.sets@[i as int].0 == id && self.registered(
                    id,
                ) && self.lists().dom().contains(id) && self.lists()[id] == self.sets@[i as int].1
                    && self.keys_of(id) == self.sets@[i as int].1.key_set(),
                None => !self.registered(id),
            },
    {
        proof {
            lemma_seq_map_contains(self.sets@, id);
        }
        let n: usize = self.sets.len();
        let mut i: usize = 0;
        while i < n
            invariant
                self.wf(),
                n == self.sets@.len(),
                i <= n,
                forall|j: int| 0 <= j < i ==> self.sets@[j].0 != id,
            decreases n - i,
        {
            if self.sets[i].0 == id {
                proof {
                    lemma_seq_map_index(self.sets@, i as int);
                    assert(self.index().dom().contains(id));
                    assert(self.keys_of(id) == self.sets@[i as int].1.key_set());
                }
                return Some(i);
            }
            i = i + 1;
        }
        proof {
            assert(!self.lists().dom().contains(id));
            assert(!self.registered(id));
        }
        None
    }

    /// Register `id` with no keys yet; registering twice changes nothing.
    pub fn register(&mut self, id: u64)
        requires
            old(self).wf(),
        ensures
            final(self).wf(),
            old(self).registered(id) ==> final(self).index() == old(self).index(),
            !old(self).registered(id) ==> final(self).index() == old(self).index().insert(
                id,
                Set::<u64>::empty(),
            ),
            final(self).registered(id),
    {
        match self.find(id) {
            Some(_) => {
            },
            None => {
                let l = KeyList::empty();
                proof {
                    self.lemma_list_pushed(id, l);
                }
                self.sets.push((id, l));
            },
        }
    }

    /// Whether `key` is cached under `id`; fails when `id` was never
    /// registered.
    pub fn has_key(&self, id: u64, key: u64) -> (r: Result<bool, TableError>)
        requires
            self.wf(),
        ensures
            match r {
                Ok(has) => self.registered(id) && has == self.keys_of(id).contains(key),
                Err(e) => e == TableError::UnknownColumnSet && !self.registered(id),
            },
    {
        match self.find(id) {
            Some(i) => Ok(self.sets[i].1.contains(key)),
            None => Err(TableError::UnknownColumnSet),
        }
    }

    /// After pushing a fresh id with list `l`, the index gained exactly
    /// that binding.
    proof fn lemma_list_pushed(&self, id: u64, l: KeyList)
        requires
            self.wf(),
            !self.registered(id),
            l.wf(),
        ensures
            distinct_keys(self.sets@.push((id, l))),
            forall|j: int|
                0 <= j < self.sets@.push((id, l)).len() ==> (#[trigger] self.sets@.push(
                    (id, l),
                )[j]).1.wf(),
            seq_map(self.sets@.push((id, l))).map_values(|l: KeyList| l.key_set()) == self.index()
                .insert(id, l.key_set()),
    {
        let t = self.sets@.push((id, l));
        lemma_seq_map_contains(self.sets@, id);
        assert forall|a: int, b: int| 0 <= a < b < t.len() implies t[a].0 != t[b].0 by {
            if b == t.len() - 1 {
                assert(self.sets@[a] == t[a]);
            }
        }
        assert forall|j: int| 0 <= j < t.len() implies (#[trigger] t[j]).1.wf() by {
            if j < t.len() - 1 {
                assert(self.sets@[j] == t[j]);
            }
        }
        assert(t.drop_last() =~= self.sets@);
        assert(seq_map(t) == seq_map(self.sets@).insert(id, l));
        assert(seq_map(t).map_values(|l: KeyList| l.key_set()) =~= self.index().insert(
            id,
            l.key_set(),
        ));
    }

    /// After an in-place change of the list at position `i` (id `id`,
    /// the id itself untouched), the index is the old index with that
    /// one binding overwritten.
    proof fn lemma_one_list_changed(&self, pre: &Self, i: int, id: u64)
        requires
            pre.wf(),
            0 <= i < pre.sets@.len(),
            pre.sets@[i].0 == id,
            self.sets@ == pre.sets@.update(i, (id, self.sets@[i].1)),
            self.sets@[i].1.wf(),
        ensures
            self.wf(),
            self.index() == pre.index().insert(id, self.sets@[i].1.key_set()),
    {
        lemma_seq_map_update(pre.sets@, i, self.sets@[i].1);
        assert(self.lists() =~= pre.lists().insert(id, self.sets@[i].1));
        assert forall|j: int|
            0 <= j < self.sets@.len() implies (#[trigger] self.sets@[j]).1.wf() by {
            if j != i {
                assert(self.sets@[j] == pre.sets@[j]);
            }
        }
        assert(distinct_keys(self.sets@)) by {
            assert(forall|j: int|
                0 <= j < self.sets@.len() ==> (#[trigger] self.sets@[j]).0 == pre.sets@[j].0);
        }
        assert(self.index() =~= pre.index().insert(id, self.sets@[i].1.key_set()));
    }
}

impl Keys for KeyIndex {
    closed spec fn index(&self) -> Map<u64, Set<u64>> {
        seq_map(self.sets@).map_values(|l: KeyList| l.key_set())
    }

    closed spec fn wf(&self) -> bool {
        &&& distinct_keys(self.sets@)
        &&& forall|i: int| 0 <= i < self.sets@.len() ==> (#[trigger] self.sets@[i]).1.wf()
    }

    fn insert_key(&mut self, id: u64, key: u64) {
        match self.find(id) {
            Some(i) => {
                let e = &mut self.sets[i];
                e.1.insert(key);
                proof {
                    self.lemma_one_list_changed(old(self), i as int, id);
                }
            },
            None => {
                let mut l = KeyList::empty();
                l.insert(key);
                proof {
                    self.lemma_list_pushed(id, l);
                }
                self.sets.push((id, l));
            },
        }
    }

    fn extend_keys(&mut self, id: u64, keys: Vec<u64>) {
        match self.find(id) {
            Some(i) => {
                let e = &mut self.sets[i];
                e.1.extend(keys);
                proof {
                    self.lemma_one_list_changed(old(self), i as int, id);
                }
            },
            None => {
                let mut l = KeyList::empty();
                l.extend(keys);
                proof {
                    assert(l.key_set() =~= Set::<u64>::empty().union(keys@.to_set()));
                    self.lemma_list_pushed(id, l);
                }
                self.sets.push((id, l));
            },
        }
    }

    fn remove_key(&mut self, id: u64, key: u64) -> (r: Result<bool, TableError>) {
        match self.find(id) {
            Some(i) => {
                let e = &mut self.sets[i];
                let removed = e.1.remove(key);
                proof {
                    self.lemma_one_list_changed(old(self), i as int, id);
                }
                Ok(removed)
            },
            None => Err(TableError::UnknownColumnSet),
        }
    }

    fn keys(&self, id: u64) -> (r: Result<Vec<u64>, TableError>) {
        match self.find(id) {
            Some(i) => Ok(self.sets[i].1.iter()),
            None => Err(TableError::UnknownColumnSet),
        }
    }
}

/// The key set after registering the keys of `keys` one by one, in
/// order, under one shape: what a run of single `insert_key` calls
/// leaves, by their contract.
pub open spec fn after_inserts(base: Set<u64>, keys: Seq<u64>) -> Set<u64>
    decreases keys.len(),
{
    if keys.len() == 0 {
        base
    } else {
        after_inserts(base, keys.drop_last()).insert(keys.last())
    }
}

/// The key set after unregistering the keys of `keys` one by one, in
/// order, under one shape: what a run of single removals leaves, by
/// their contract.
pub open spec fn after_removes(base: Set<u64>, keys: Seq<u64>) -> Set<u64>
    decreases keys.len(),
{
    if keys.len() == 0 {
        base
    } else {
        after_removes(base, keys.drop_last()).remove(keys.last())
    }
}

/// Law: one bulk `extend_keys` leaves the same key set as registering
/// the same keys one by one with `insert_key` — the union the bulk
/// update adds is exactly the fold of single insertions.
pub proof fn lemma_bulk_insert_is_sequential(base: Set<u64>, keys: Seq<u64>)
    ensures
        after_inserts(base, keys) =~= base.union(keys.to_set()),
    decreases keys.len(),
{
    if keys.len() == 0 {
        assert(keys.to_set() =~= Set::<u64>::empty()) by {
            assert(forall|x: u64| !keys.contains(x));
        }
    } else {
        lemma_bulk_insert_is_sequential(base, keys.drop_last());
        assert(keys =~= keys.drop_last().push(keys.last()));
        lemma_push_set(keys.drop_last(), keys.last());
        assert(after_inserts(base, keys) =~= base.union(keys.to_set()));
    }
}

/// Removing each key of `removed` in turn takes exactly those keys out.
pub proof fn lemma_removes_are_difference(base: Set<u64>, removed: Seq<u64>)
    ensures
        after_removes(base, removed) =~= base.difference(removed.to_set()),
    decreases removed.len(),
{
    if removed.len() == 0 {
        assert(removed.to_set() =~= Set::<u64>::empty()) by {
            assert(forall|x: u64| !removed.contains(x));
        }
        assert(base.difference(removed.to_set()) =~= base);
    } else {
        lemma_removes_are_difference(base, removed.drop_last());
        assert(removed =~= removed.drop_last().push(removed.last()));
        lemma_push_set(removed.drop_last(), removed.last());
        assert(after_removes(base, removed) =~= base.difference(removed.to_set()));
    }
}

/// Law: after N inserts and M removes of keys under one shape —
/// starting from an empty shape entry, the inserted keys distinct, the
/// removed keys distinct and all previously inserted — the shape's key
/// set has exactly N − M entries.
pub proof fn lemma_key_count(inserted: Seq<u64>, removed: Seq<u64>)
    requires
        inserted.no_duplicates(),
        removed.no_duplicates(),
        removed.to_set().subset_of(inserted.to_set()),
    ensures
        after_removes(after_inserts(Set::empty(), inserted), removed).len() == inserted.len()
            - removed.len(),
{
    broadcast use seq_to_set_is_finite;

    lemma_bulk_insert_is_sequential(Set::empty(), inserted);
    assert(after_inserts(Set::empty(), inserted) =~= inserted.to_set());
    lemma_removes_are_difference(inserted.to_set(), removed);
    inserted.unique_seq_to_set();
    removed.unique_seq_to_set();
    lemma_set_difference_len(inserted.to_set(), removed.to_set());
    assert(inserted.to_set().intersect(removed.to_set()) =~= removed.to_set());
    lemma_len_subset(removed.to_set(), inserted.to_set());
}

} // verus!
