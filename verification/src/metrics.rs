//! Load-test counters for the synthetic client.
//!
//! In the load generator these counters are shared across tasks; here they
//! are modelled as owned values, and additions wrap exactly as the shared
//! fetch-and-add does (the client subtracts by adding a wrapped value).

use vstd::prelude::*;

verus! {

/// A single event counter.
pub struct AlignedAtomic {
    value: usize,
}

impl AlignedAtomic {
    /// The counter's current value.
    pub closed spec fn count(self) -> usize {
        self.value
    }

    pub fn new(val: usize) -> (r: Self)
        ensures
            r.count() == val,
    {
        AlignedAtomic { value: val }
    }

    /// Adds with wrap-around, exactly as a fetch-and-add does.
    pub fn add(&mut self, val: usize)
        ensures
            final(self).count() == old(self).count().wrapping_add(val),
    {
        self.value = self.value.wrapping_add(val);
    }

    pub fn get(&self) -> (r: usize)
        ensures
            r == self.count(),
    {
        self.value
    }
}

/// The per-worker counters of the load generator.
pub struct LoadMetrics {
    pub id: String,
    pub active: AlignedAtomic,
    pub failed: AlignedAtomic,
    pub tx_pixels: AlignedAtomic,
    pub rx_datagrams: AlignedAtomic,
    pub rx_bytes: AlignedAtomic,
}

impl LoadMetrics {
    pub fn new(id: String) -> (r: Self)
        ensures
            r.id@ == id@,
            r.active.count() == 0,
            r.failed.count() == 0,
            r.tx_pixels.count() == 0,
            r.rx_datagrams.count() == 0,
            r.rx_bytes.count() == 0,
    {
        LoadMetrics {
            id,
            active: AlignedAtomic::new(0),
            failed: AlignedAtomic::new(0),
            tx_pixels: AlignedAtomic::new(0),
            rx_datagrams: AlignedAtomic::new(0),
            rx_bytes: AlignedAtomic::new(0),
        }
    }
}

} // verus!
