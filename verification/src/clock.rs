//! Coarse shared clock.
//!
//! A background updater stores the wall-clock milliseconds roughly once a
//! millisecond; readers take the stored value, at most one update stale.
//! The storing and the reading are modelled here; the updater thread and
//! the system time source live outside the library.

use vstd::prelude::*;

verus! {

/// Coarse millisecond clock value.
pub struct AtomicTime {
    time_ms: u64,
}

impl AtomicTime {
    /// The stored milliseconds.
    pub closed spec fn time(self) -> u64 {
        self.time_ms
    }

    /// A clock starting at the given wall-clock milliseconds.
    pub fn new(now_ms: u64) -> (r: Self)
        ensures
            r.time() == now_ms,
    {
        AtomicTime { time_ms: now_ms }
    }

    /// The updater's store: replaces the coarse value.
    pub fn store_ms(&mut self, now_ms: u64)
        ensures
            final(self).time() == now_ms,
    {
        self.time_ms = now_ms;
    }

    /// The stored milliseconds.
    pub fn now_ms(&self) -> (r: u64)
        ensures
            r == self.time(),
    {
        self.time_ms
    }

    /// The stored value in whole seconds.
    pub fn now_sec(&self) -> (r: u64)
        ensures
            r == self.time() / 1000,
    {
        self.now_ms() / 1000
    }
}

} // verus!
