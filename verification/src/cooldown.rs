//! Per-worker cooldown bitset.
//!
//! A flat array of 64-bit words addresses up to `MAX_CONNECTIONS_PER_WORKER`
//! user slots; membership tests and marking are constant-time single-word
//! operations, and the timing wheel evicts whole slots with one linear pass.

use vstd::prelude::*;
use vstd::pervasive::VecAdditionalExecFns;
use crate::settings::{COOLDOWN_ARRAY_LEN, MAX_CONNECTIONS_PER_WORKER};

verus! {

/// Whether bit `s` of word `w` is set.
pub open spec fn bit_is_set(w: u64, s: u32) -> bool {
    (w >> (s as u64)) & 1u64 == 1u64
}

proof fn lemma_chunk_bound(id: u32)
    by (bit_vector)
    requires
        id < 65536,
    ensures
        (id >> 6) < 1024,
        (id & 63) < 64,
{
}

proof fn lemma_mask_test(w: u64, s: u32)
    by (bit_vector)
    requires
        s < 64,
    ensures
        (w & (1u64 << (s as u64)) != 0) == bit_is_set(w, s),
{
}

proof fn lemma_or_bit(w: u64, i: u32, j: u32)
    by (bit_vector)
    requires
        i < 64,
        j < 64,
    ensures
        bit_is_set(w | (1u64 << (i as u64)), j) <==> (bit_is_set(w, j) || i == j),
{
}

proof fn lemma_andnot_bit(m: u64, e: u64, j: u32)
    by (bit_vector)
    requires
        j < 64,
    ensures
        bit_is_set(m & !e, j) <==> (bit_is_set(m, j) && !bit_is_set(e, j)),
{
}

proof fn lemma_zero_bit(j: u32)
    by (bit_vector)
    ensures
        !bit_is_set(0u64, j),
{
}

proof fn lemma_id_split(a: u32, b: u32)
    by (bit_vector)
    requires
        a < 65536,
        b < 65536,
        a >> 6 == b >> 6,
        a & 63 == b & 63,
    ensures
        a == b,
{
}

/// Bitset over the worker's user slots; a set bit means the user is
/// currently ineligible to submit a pixel write.
pub struct CooldownArray {
    bits: Vec<u64>,
}

impl CooldownArray {
    pub closed spec fn wf(self) -> bool {
        self.bits@.len() == COOLDOWN_ARRAY_LEN
    }

    /// The set of user slots currently marked as on cooldown.
    pub closed spec fn marked(self) -> Set<u32> {
        Set::new(
            |id: u32|
                (id as int) < (MAX_CONNECTIONS_PER_WORKER as int) && bit_is_set(
                    self.bits@[(id >> 6) as int],
                    id & 63,
                ),
        )
    }

    pub fn new() -> (r: Self)
        ensures
            r.wf(),
            r.marked() == Set::<u32>::empty(),
    {
        let mut bits: Vec<u64> = Vec::new();
        let mut i: usize = 0;
        while i < COOLDOWN_ARRAY_LEN
            invariant
                i <= COOLDOWN_ARRAY_LEN,
                bits@.len() == i,
                forall|w: int| 0 <= w < i ==> bits@[w] == 0u64,
            decreases COOLDOWN_ARRAY_LEN - i,
        {
            bits.push(0);
            i = i + 1;
        }
        let r = CooldownArray { bits };
        proof {
            assert forall|id: u32| !r.marked().contains(id) by {
                if (id as int) < (MAX_CONNECTIONS_PER_WORKER as int) {
                    lemma_zero_bit(id & 63);
                    lemma_chunk_bound(id);
                }
            }
            assert(r.marked() =~= Set::<u32>::empty());
        }
        r
    }

    /// Constant-time membership test.
    pub fn is_on_cooldown(&self, local_id: u32) -> (r: bool)
        requires
            self.wf(),
            (local_id as int) < (MAX_CONNECTIONS_PER_WORKER as int),
        ensures
            r == self.marked().contains(local_id),
    {
        proof {
            lemma_chunk_bound(local_id);
            lemma_mask_test(self.bits@[(local_id >> 6) as int], local_id & 63);
        }
        let chunk_idx = (local_id >> 6) as usize;
        let bit_mask: u64 = 1u64 << ((local_id & 63) as u64);
        (self.bits[chunk_idx] & bit_mask) != 0
    }

    /// Marks the user as on cooldown; all other slots are untouched.
    pub fn set_cooldown(&mut self, local_id: u32)
        requires
            old(self).wf(),
            (local_id as int) < (MAX_CONNECTIONS_PER_WORKER as int),
        ensures
            final(self).wf(),
            final(self).marked() == old(self).marked().insert(local_id),
    {
        proof {
            lemma_chunk_bound(local_id);
        }
        let chunk_idx = (local_id >> 6) as usize;
        let bit_mask: u64 = 1u64 << ((local_id & 63) as u64);
        let word = self.bits[chunk_idx];
        self.bits.set(chunk_idx, word | bit_mask);
        proof {
            assert forall|j: u32|
                self.marked().contains(j) == (old(self).marked().contains(j) || j
                    == local_id) by {
                if (j as int) < (MAX_CONNECTIONS_PER_WORKER as int) {
                    lemma_chunk_bound(j);
                    if j >> 6 == local_id >> 6 {
                        lemma_or_bit(old(self).bits@[(j >> 6) as int], local_id & 63, j & 63);
                        if j & 63 == local_id & 63 {
                            lemma_id_split(j, local_id);
                        }
                    }
                }
            }
            assert(self.marked() =~= old(self).marked().insert(local_id));
        }
    }

    /// One timing-wheel eviction pass: every user marked in `expiring` is
    /// cleared from `self`, and `expiring` is wiped for future reuse.
    pub fn evict_and_reset(&mut self, expiring: &mut CooldownArray)
        requires
            old(self).wf(),
            old(expiring).wf(),
        ensures
            final(self).wf(),
            final(expiring).wf(),
            final(self).marked() == old(self).marked().difference(old(expiring).marked()),
            final(expiring).marked() == Set::<u32>::empty(),
    {
        let mut w: usize = 0;
        while w < COOLDOWN_ARRAY_LEN
            invariant
                w <= COOLDOWN_ARRAY_LEN,
                self.bits@.len() == COOLDOWN_ARRAY_LEN,
                expiring.bits@.len() == COOLDOWN_ARRAY_LEN,
                forall|k: int|
                    0 <= k < w ==> self.bits@[k] == (old(self).bits@[k] & !old(
                        expiring,
                    ).bits@[k]),
                forall|k: int| 0 <= k < w ==> expiring.bits@[k] == 0u64,
                forall|k: int| w <= k < COOLDOWN_ARRAY_LEN ==> self.bits@[k] == old(self).bits@[k],
                forall|k: int|
                    w <= k < COOLDOWN_ARRAY_LEN ==> expiring.bits@[k] == old(expiring).bits@[k],
            decreases COOLDOWN_ARRAY_LEN - w,
        {
            let m = self.bits[w];
            let e = expiring.bits[w];
            self.bits.set(w, m & !e);
            expiring.bits.set(w, 0);
            w = w + 1;
        }
        proof {
            assert forall|j: u32|
                self.marked().contains(j) == (old(self).marked().contains(j) && !old(
                    expiring,
                ).marked().contains(j)) by {
                if (j as int) < (MAX_CONNECTIONS_PER_WORKER as int) {
                    lemma_chunk_bound(j);
                    lemma_andnot_bit(
                        old(self).bits@[(j >> 6) as int],
                        old(expiring).bits@[(j >> 6) as int],
                        j & 63,
                    );
                }
            }
            assert(self.marked() =~= old(self).marked().difference(old(expiring).marked()));
            assert forall|j: u32| !expiring.marked().contains(j) by {
                if (j as int) < (MAX_CONNECTIONS_PER_WORKER as int) {
                    lemma_chunk_bound(j);
                    lemma_zero_bit(j & 63);
                }
            }
            assert(expiring.marked() =~= Set::<u32>::empty());
        }
    }
}

} // verus!
