//! The set-collection capability the key index builds on, and the
//! library's own implementation of it.

use vstd::prelude::*;

verus! {

/// Capability contract for a set of keys: insert, bulk extend,
/// membership, removal, and a snapshot of the members.
pub trait KeySet: Sized {
    /// The members as a mathematical set.
    spec fn key_set(&self) -> Set<u64>;

    /// Internal well-formedness.
    spec fn wf(&self) -> bool;

    /// A fresh, empty set.
    fn empty() -> (r: Self)
        ensures
            r.wf(),
            r.key_set() == Set::<u64>::empty(),
    ;

    /// Add one key; true when it was new.
    fn insert(&mut self, key: u64) -> (added: bool)
        requires
            old(self).wf(),
        ensures
            final(self).wf(),
            final(self).key_set() == old(self).key_set().insert(key),
            added == !old(self).key_set().contains(key),
    ;

    /// Add every key of the batch.
    fn extend(&mut self, keys: Vec<u64>)
        requires
            old(self).wf(),
        ensures
            final(self).wf(),
            final(self).key_set() == old(self).key_set().union(keys@.to_set()),
    ;

    /// Whether `key` is a member.
    fn contains(&self, key: u64) -> (r: bool)
        requires
            self.wf(),
        ensures
            r == self.key_set().contains(key),
    ;

    /// Take one key out; true when it was a member.
    fn remove(&mut self, key: u64) -> (removed: bool)
        requires
            old(self).wf(),
        ensures
            final(self).wf(),
            final(self).key_set() == old(self).key_set().remove(key),
            removed == old(self).key_set().contains(key),
    ;

    /// A copied snapshot of the members, each once.
    fn iter(&self) -> (r: Vec<u64>)
        requires
            self.wf(),
        ensures
            r@.no_duplicates(),
            r@.to_set() == self.key_set(),
    ;
}

/// Pushing a key adds exactly it to the member set; pushing a fresh key
/// keeps the sequence duplicate-free.
pub(crate) proof fn lemma_push_set(s: Seq<u64>, key: u64)
    ensures
        s.push(key).to_set() =~= s.to_set().insert(key),
        !s.contains(key) && s.no_duplicates() ==> s.push(key).no_duplicates(),
{
    let t = s.push(key);
    assert forall|x: u64| t.to_set().contains(x) implies s.to_set().insert(key).contains(x) by {
        let j = choose|j: int| 0 <= j < t.len() && t[j] == x;
        if j < s.len() {
            assert(s[j] == x);
        }
    }
    assert forall|x: u64| s.to_set().insert(key).contains(x) implies t.to_set().contains(x) by {
        if x == key {
            assert(t[s.len() as int] == x);
        } else {
            let j = choose|j: int| 0 <= j < s.len() && s[j] == x;
            assert(t[j] == x);
        }
    }
    if !s.contains(key) && s.no_duplicates() {
        assert forall|a: int, b: int| 0 <= a < b < t.len() implies t[a] != t[b] by {
            if b == t.len() - 1 {
                assert(s[a] == t[a]);
            }
        }
    }
}

/// Removing the entry at `i` from a duplicate-free sequence removes
/// exactly its key from the member set.
pub(crate) proof fn lemma_remove_set(s: Seq<u64>, i: int)
    requires
        s.no_duplicates(),
        0 <= i < s.len(),
    ensures
        s.remove(i).no_duplicates(),
        s.remove(i).to_set() =~= s.to_set().remove(s[i]),
{
    let t = s.remove(i);
    assert forall|a: int| 0 <= a < t.len() implies t[a] == (if a < i {
        s[a]
    } else {
        s[a + 1]
    }) by {
        if a < i {
            assert(t[a] == s.subrange(0, i)[a]);
        } else {
            assert(t[a] == s.subrange(i + 1, s.len() as int)[a - i]);
        }
    }
    assert forall|a: int, b: int| 0 <= a < b < t.len() implies t[a] != t[b] by {}
    assert forall|x: u64| t.to_set().contains(x) implies s.to_set().remove(s[i]).contains(x) by {
        let j = choose|j: int| 0 <= j < t.len() && t[j] == x;
        let sj: int = if j < i {
            j
        } else {
            j + 1
        };
        assert(s[sj] == x);
        assert(sj != i);
    }
    assert forall|x: u64| s.to_set().remove(s[i]).contains(x) implies t.to_set().contains(x) by {
        let j = choose|j: int| 0 <= j < s.len() && s[j] == x;
        assert(j != i);
        let nj: int = if j < i {
            j
        } else {
            j - 1
        };
        assert(t[nj] == x);
    }
}

/// The library's key set: a duplicate-free vector of keys.
pub struct KeyList {
    keys: Vec<u64>,
}

impl KeySet for KeyList {
    closed spec fn key_set(&self) -> Set<u64> {
        self.keys@.to_set()
    }

    closed spec fn wf(&self) -> bool {
        self.keys@.no_duplicates()
    }

    fn empty() -> (r: Self) {
        let r = KeyList { keys: Vec::new() };
        proof {
            assert(r.keys@.to_set() =~= Set::<u64>::empty());
        }
        r
    }

    fn insert(&mut self, key: u64) -> (added: bool) {
        if self.contains(key) {
            proof {
                assert(self.keys@.to_set() =~= old(self).keys@.to_set().insert(key));
            }
            false
        } else {
            proof {
                assert(!old(self).keys@.contains(key)) by {
                    if old(self).keys@.contains(key) {
                        let j = choose|j: int|
                            0 <= j < old(self).keys@.len() && old(self).keys@[j] == key;
                        assert(old(self).keys@.to_set().contains(key));
                    }
                }
                lemma_push_set(self.keys@, key);
            }
            self.keys.push(key);
            true
        }
    }

    fn extend(&mut self, keys: Vec<u64>) {
        let ghost orig = keys@;
        let mut keys = keys;
        let ghost mut i: int = 0;
        proof {
            assert(old(self).key_set().union(orig.take(0).to_set()) =~= old(self).key_set());
        }
        while keys.len() > 0
            invariant
                self.wf(),
                0 <= i <= orig.len(),
                keys@ == orig.skip(i),
                self.key_set() == old(self).key_set().union(orig.take(i).to_set()),
            decreases keys@.len(),
        {
            let k = keys.remove(0);
            proof {
                assert(orig.skip(i)[0] == orig[i]);
                assert(keys@ =~= orig.skip(i + 1));
            }
            self.insert(k);
            proof {
                assert(orig.take(i + 1) =~= orig.take(i).push(orig[i]));
                lemma_push_set(orig.take(i), orig[i]);
                assert(self.key_set() =~= old(self).key_set().union(orig.take(i + 1).to_set()));
                i = i + 1;
            }
        }
        proof {
            assert(orig.take(i) =~= orig);
        }
    }

    fn contains(&self, key: u64) -> (r: bool) {
        let n: usize = self.keys.len();
        let mut i: usize = 0;
        while i < n
            invariant
                n == self.keys@.len(),
                i <= n,
                forall|j: int| 0 <= j < i ==> self.keys@[j] != key,
            decreases n - i,
        {
            if self.keys[i] == key {
                assert(self.keys@.contains(key));
                return true;
            }
            i = i + 1;
        }
        proof {
            assert(!self.keys@.contains(key));
        }
        false
    }

    fn remove(&mut self, key: u64) -> (removed: bool) {
        let n: usize = self.keys.len();
        let mut i: usize = 0;
        while i < n
            invariant
                self.wf(),
                self.keys@ == old(self).keys@,
                n == self.keys@.len(),
                i <= n,
                forall|j: int| 0 <= j < i ==> self.keys@[j] != key,
            decreases n - i,
        {
            if self.keys[i] == key {
                proof {
                    assert(self.keys@.contains(key));
                    assert(self.keys@.to_set().contains(key));
                    lemma_remove_set(self.keys@, i as int);
                }
                self.keys.remove(i);
                return true;
            }
            i = i + 1;
        }
        proof {
            assert(!self.keys@.contains(key));
            assert(!self.keys@.to_set().contains(key)) by {
                if self.keys@.to_set().contains(key) {
                    let j = choose|j: int| 0 <= j < self.keys@.len() && self.keys@[j] == key;
                }
            }
            assert(self.keys@.to_set() =~= old(self).keys@.to_set().remove(key));
        }
        false
    }

    fn iter(&self) -> (r: Vec<u64>) {
        let n: usize = self.keys.len();
        let mut r: Vec<u64> = Vec::new();
        let mut i: usize = 0;
        while i < n
            invariant
                n == self.keys@.len(),
                i <= n,
                r@ == self.keys@.take(i as int),
            decreases n - i,
        {
            let k: u64 = self.keys[i];
            r.push(k);
            proof {
                assert(r@ =~= self.keys@.take(i + 1));
            }
            i = i + 1;
        }
        proof {
            assert(r@ =~= self.keys@);
        }
        r
    }
}

} // verus!
