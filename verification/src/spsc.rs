//! Bounded single-producer single-consumer ring buffer.
//!
//! Two cursors index a power-of-two backing array; the cursors advance with
//! wrapping arithmetic so the queue stays correct across counter overflow.
//! The ghost history records every accepted push and every pop, and the
//! well-formedness invariant ties the cursors to those histories; popped
//! values are always a prefix of pushed values, in order.

use vstd::prelude::*;
use vstd::pervasive::VecAdditionalExecFns;
use vstd::arithmetic::div_mod::{
    lemma_add_mod_noop, lemma_mod_bound, lemma_mod_equivalence, lemma_mod_mod,
    lemma_mod_multiples_vanish, lemma_small_mod,
};
use crate::settings::SPSC_CAPACITY;

verus! {

/// The cursors live in 64-bit words; all cursor arithmetic is modulo this.
pub open spec fn cursor_span() -> int {
    0x1_0000_0000_0000_0000
}

/// Bounded lock-free queue of fixed capacity `SPSC_CAPACITY`. In the server
/// one worker owns the tail and the master owns the head; this model captures
/// the queue discipline itself, which is what the hand-off relies on.
#[verifier::reject_recursive_types(T)]
pub struct SpscRingBuffer<T> {
    buffer: Vec<Option<T>>,
    /// Consumer cursor: counts pops, wrapping.
    head: u64,
    /// Producer cursor: counts accepted pushes, wrapping.
    tail: u64,
    pushed: Ghost<Seq<T>>,
    popped: Ghost<Seq<T>>,
}

impl<T: Copy> SpscRingBuffer<T> {
    /// Every value ever accepted by `push`, oldest first.
    pub closed spec fn pushed_log(self) -> Seq<T> {
        self.pushed@
    }

    /// Every value ever returned by `pop`, oldest first.
    pub closed spec fn popped_log(self) -> Seq<T> {
        self.popped@
    }

    /// The values currently queued, next-to-pop first.
    pub open spec fn contents(self) -> Seq<T> {
        self.pushed_log().skip(self.popped_log().len() as int)
    }

    pub closed spec fn wf(self) -> bool {
        &&& self.buffer@.len() == SPSC_CAPACITY
        &&& self.popped@.len() <= self.pushed@.len()
        &&& self.pushed@.len() - self.popped@.len() <= SPSC_CAPACITY
        &&& self.popped@ == self.pushed@.take(self.popped@.len() as int)
        &&& self.tail == self.pushed@.len() as int % cursor_span()
        &&& self.head == self.popped@.len() as int % cursor_span()
        &&& forall|i: int|
            self.popped@.len() <= i < self.pushed@.len() ==> self.buffer@[i % (
            SPSC_CAPACITY as int)] == Some(self.pushed@[i])
    }

    /// The FIFO law: what has been popped is exactly the oldest prefix of
    /// what has been pushed, and the queue holds the remainder in order.
    pub proof fn lemma_fifo(self)
        requires
            self.wf(),
        ensures
            self.popped_log() == self.pushed_log().take(self.popped_log().len() as int),
            self.contents() == self.pushed_log().skip(self.popped_log().len() as int),
    {
    }

    pub fn new() -> (r: Self)
        ensures
            r.wf(),
            r.pushed_log() == Seq::<T>::empty(),
            r.popped_log() == Seq::<T>::empty(),
            r.contents() == Seq::<T>::empty(),
    {
        let mut buffer: Vec<Option<T>> = Vec::new();
        let mut i: usize = 0;
        while i < SPSC_CAPACITY
            invariant
                i <= SPSC_CAPACITY,
                buffer@.len() == i,
            decreases SPSC_CAPACITY - i,
        {
            buffer.push(None);
            i = i + 1;
        }
        let r = SpscRingBuffer {
            buffer,
            head: 0,
            tail: 0,
            pushed: Ghost(Seq::empty()),
            popped: Ghost(Seq::empty()),
        };
        proof {
            assert(r.contents() =~= Seq::<T>::empty());
        }
        r
    }

    /// Accepts the value unless the ring is full; on a full ring the value is
    /// handed back and nothing changes.
    pub fn push(&mut self, value: T) -> (r: Result<(), T>)
        requires
            old(self).wf(),
        ensures
            final(self).wf(),
            old(self).contents().len() < SPSC_CAPACITY ==> {
                &&& r is Ok
                &&& final(self).pushed_log() == old(self).pushed_log().push(value)
                &&& final(self).popped_log() == old(self).popped_log()
                &&& final(self).contents() == old(self).contents().push(value)
            },
            old(self).contents().len() >= SPSC_CAPACITY ==> {
                &&& r == Result::<(), T>::Err(value)
                &&& *final(self) == *old(self)
            },
    {
        let ghost p = self.pushed@.len();
        let ghost q = self.popped@.len();
        let current_tail = self.tail;
        let current_head = self.head;

        proof {
            lemma_cursor_window(p, q);
        }

        if current_tail.wrapping_sub(current_head) >= SPSC_CAPACITY as u64 {
            return Err(value);
        }

        let index = (current_tail & (SPSC_CAPACITY as u64 - 1)) as usize;
        proof {
            assert(current_tail & 1023u64 == current_tail % 1024u64) by (bit_vector);
            lemma_mod_cursor_index(p);
            assert(index == p as int % (SPSC_CAPACITY as int));
            lemma_mod_bound(p as int, SPSC_CAPACITY as int);
        }
        self.buffer.set(index, Some(value));
        self.tail = current_tail.wrapping_add(1);
        proof {
            self.pushed@ = self.pushed@.push(value);
            lemma_cursor_inc(p);
            assert(self.popped@ == self.pushed@.take(q as int)) by {
                assert(self.pushed@.take(q as int) =~= old(self).pushed@.take(q as int));
            }
            assert forall|i: int| q <= i < p + 1 implies self.buffer@[i % (SPSC_CAPACITY as int)]
                == Some(self.pushed@[i]) by {
                if i < p {
                    lemma_distinct_slots(p as int, i);
                }
            }
            assert(self.contents() =~= old(self).contents().push(value));
        }
        Ok(())
    }

    /// Removes and returns the oldest queued value, or `None` when empty.
    pub fn pop(&mut self) -> (r: Option<T>)
        requires
            old(self).wf(),
        ensures
            final(self).wf(),
            old(self).contents().len() == 0 ==> {
                &&& r is None
                &&& *final(self) == *old(self)
            },
            old(self).contents().len() > 0 ==> {
                &&& r == Some(old(self).contents()[0])
                &&& final(self).pushed_log() == old(self).pushed_log()
                &&& final(self).popped_log() == old(self).popped_log().push(
                    old(self).contents()[0],
                )
                &&& final(self).contents() == old(self).contents().skip(1)
            },
    {
        let ghost p = self.pushed@.len();
        let ghost q = self.popped@.len();
        let current_head = self.head;
        let current_tail = self.tail;

        proof {
            lemma_cursor_window(p, q);
        }

        if current_head == current_tail {
            return None;
        }

        let index = (current_head & (SPSC_CAPACITY as u64 - 1)) as usize;
        proof {
            assert(current_head & 1023u64 == current_head % 1024u64) by (bit_vector);
            lemma_mod_cursor_index(q);
            assert(index == q as int % (SPSC_CAPACITY as int));
            lemma_mod_bound(q as int, SPSC_CAPACITY as int);
        }
        let slot = self.buffer[index];
        let value = match slot {
            Some(v) => v,
            None => {
                proof {
                    assert(self.buffer@[q as int % (SPSC_CAPACITY as int)] == Some(
                        self.pushed@[q as int],
                    ));
                }
                // Unreachable: the slot of a non-empty queue is always filled.
                return None;
            },
        };
        self.head = current_head.wrapping_add(1);
        proof {
            self.popped@ = self.popped@.push(value);
            lemma_cursor_inc(q);
            assert(value == old(self).contents()[0]);
            assert(self.popped@ =~= self.pushed@.take(q as int + 1));
            assert(self.contents() =~= old(self).contents().skip(1));
        }
        Some(value)
    }
}

/// Relates the wrapped cursor values of a queue window to its true size.
proof fn lemma_cursor_window(p: nat, q: nat)
    requires
        q <= p,
        p - q <= SPSC_CAPACITY,
    ensures
        ({
            let t = p as int % cursor_span();
            let h = q as int % cursor_span();
            &&& 0 <= t < cursor_span()
            &&& 0 <= h < cursor_span()
            &&& (if t >= h {
                t - h
            } else {
                t - h + cursor_span()
            }) == p - q
            &&& (t == h <==> p == q)
        }),
{
    let w = cursor_span();
    let d = (p - q) as int;
    let h = q as int % w;
    lemma_mod_bound(q as int, w);
    lemma_mod_bound(p as int, w);
    lemma_small_mod(d as nat, w as nat);
    lemma_add_mod_noop(q as int, d, w);
    assert((h + d) % w == p as int % w);
    if h + d < w {
        lemma_small_mod((h + d) as nat, w as nat);
    } else {
        lemma_mod_multiples_vanish(1, h + d - w, w);
        lemma_small_mod((h + d - w) as nat, w as nat);
    }
}

/// A wrapped cursor still addresses the right power-of-two slot.
proof fn lemma_mod_cursor_index(p: nat)
    ensures
        (p as int % cursor_span()) % (SPSC_CAPACITY as int) == p as int % (SPSC_CAPACITY as int),
{
    assert((SPSC_CAPACITY as int) * 0x40_0000_0000_0000 == cursor_span());
    lemma_mod_mod(p as int, SPSC_CAPACITY as int, 0x40_0000_0000_0000);
}

/// Advancing a cursor by one advances its wrapped value modulo the span.
proof fn lemma_cursor_inc(p: nat)
    ensures
        ({
            let t = p as int % cursor_span();
            &&& (t + 1) % cursor_span() == (p + 1) as int % cursor_span()
            &&& (p + 1) as int % cursor_span() == if t == cursor_span() - 1 {
                0
            } else {
                t + 1
            }
        }),
{
    let w = cursor_span();
    let t = p as int % w;
    lemma_mod_bound(p as int, w);
    lemma_small_mod(1, w as nat);
    lemma_add_mod_noop(p as int, 1, w);
    if t + 1 < w {
        lemma_small_mod((t + 1) as nat, w as nat);
    } else {
        lemma_mod_multiples_vanish(1, 0, w);
        lemma_small_mod(0, w as nat);
    }
}

/// Two cursor positions less than a capacity apart use distinct slots.
proof fn lemma_distinct_slots(p: int, i: int)
    requires
        i < p,
        p - i < SPSC_CAPACITY,
    ensures
        i % (SPSC_CAPACITY as int) != p % (SPSC_CAPACITY as int),
{
    if i % (SPSC_CAPACITY as int) == p % (SPSC_CAPACITY as int) {
        lemma_mod_equivalence(p, i, SPSC_CAPACITY as int);
        lemma_small_mod((p - i) as nat, SPSC_CAPACITY as nat);
    }
}

} // verus!
