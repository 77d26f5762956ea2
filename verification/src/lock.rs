//! The single-value locking capability and its in-data model.
//!
//! A real backend (a mutex, a read-write lock, a borrow-checked cell)
//! enforces admission at run time by blocking or by failing. The core is
//! verified against an explicit model instead: a lock carries its reader
//! count and writer flag as ordinary data, acquisition mutates that
//! state, and every admission rule becomes a precondition. Where a
//! blocking backend would wait, the model requires the caller to have
//! established admission first; the contracts therefore describe exactly
//! the protocol a backend must enforce.

use vstd::prelude::*;

verus! {

/// Capability contract for a single-value lock: shared read access for
/// many holders at once, exclusive write access for one.
///
/// `readers` and `writer` describe the lock's admission state; `value`
/// is the protected value. Acquisition and release mutate the admission
/// state and never the value; only a write holder may replace the value.
pub trait Lock<V>: Sized {
    /// The value the lock protects.
    spec fn value(&self) -> V;

    /// How many shared read holds are outstanding.
    spec fn readers(&self) -> nat;

    /// Whether an exclusive write hold is outstanding.
    spec fn writer(&self) -> bool;

    /// Wrap a value in a fresh, unheld lock.
    fn from_value(value: V) -> (r: Self)
        ensures
            r.value() == value,
            r.readers() == 0,
            !r.writer(),
    ;

    /// Acquire a shared read hold. Admission: no writer present.
    fn read(&mut self)
        requires
            !old(self).writer(),
            old(self).readers() < u64::MAX,
        ensures
            final(self).value() == old(self).value(),
            final(self).readers() == old(self).readers() + 1,
            !final(self).writer(),
    ;

    /// Release one shared read hold.
    fn release_read(&mut self)
        requires
            old(self).readers() > 0,
        ensures
            final(self).value() == old(self).value(),
            final(self).readers() == old(self).readers() - 1,
            final(self).writer() == old(self).writer(),
    ;

    /// Acquire the exclusive write hold. Admission: no holder at all.
    fn write(&mut self)
        requires
            old(self).readers() == 0,
            !old(self).writer(),
        ensures
            final(self).value() == old(self).value(),
            final(self).readers() == 0,
            final(self).writer(),
    ;

    /// Release the exclusive write hold.
    fn release_write(&mut self)
        requires
            old(self).writer(),
        ensures
            final(self).value() == old(self).value(),
            final(self).readers() == old(self).readers(),
            !final(self).writer(),
    ;

    /// Read the protected value; any hold grants read access.
    fn get(&self) -> (r: &V)
        requires
            self.readers() > 0 || self.writer(),
        ensures
            *r == self.value(),
    ;

    /// Replace the protected value; only the write holder may.
    fn set(&mut self, value: V)
        requires
            old(self).writer(),
        ensures
            final(self).value() == value,
            final(self).readers() == old(self).readers(),
            final(self).writer() == old(self).writer(),
    ;

    /// Consume the lock and hand the protected value back.
    fn into_inner(self) -> (r: V)
        ensures
            r == self.value(),
    ;
}

/// The library's reference lock: reader count and writer flag held
/// in-line as data, so that the admission protocol itself is verified.
pub struct RwCell<V> {
    readers: u64,
    writer: bool,
    value: V,
}

impl<V> Lock<V> for RwCell<V> {
    closed spec fn value(&self) -> V {
        self.value
    }

    closed spec fn readers(&self) -> nat {
        self.readers as nat
    }

    closed spec fn writer(&self) -> bool {
        self.writer
    }

    fn from_value(value: V) -> (r: Self) {
        RwCell { readers: 0, writer: false, value }
    }

    fn read(&mut self) {
        self.readers = self.readers + 1;
    }

    fn release_read(&mut self) {
        self.readers = self.readers - 1;
    }

    fn write(&mut self) {
        self.writer = true;
    }

    fn release_write(&mut self) {
        self.writer = false;
    }

    fn get(&self) -> (r: &V) {
        &self.value
    }

    fn set(&mut self, value: V) {
        self.value = value;
    }

    fn into_inner(self) -> (r: V) {
        self.value
    }
}

} // verus!
