//! Timing wheel for O(1) mass cooldown expiry.
//!
//! A ring of `TIMING_WHEEL_TICKS` bitsets plus a current pointer. Adding a
//! cooldown marks the slot the pointer is at, so the user expires exactly
//! `TIMING_WHEEL_TICKS` ticks later: each tick advances the pointer and
//! evicts the slot it lands on from the master bitset in one linear pass.

use vstd::prelude::*;
use crate::cooldown::CooldownArray;
use crate::settings::{MAX_CONNECTIONS_PER_WORKER, TIMING_WHEEL_TICKS};

verus! {

/// One tick of the wheel model: advance the pointer, subtract the slot it
/// lands on from the master set, and wipe that slot.
pub open spec fn wheel_step(slots: Seq<Set<u32>>, cur: int, master: Set<u32>) -> (
    Seq<Set<u32>>,
    int,
    Set<u32>,
) {
    let next = (cur + 1) % (TIMING_WHEEL_TICKS as int);
    (slots.update(next, Set::empty()), next, master.difference(slots[next]))
}

/// `n` successive ticks of the wheel model.
pub open spec fn wheel_run(slots: Seq<Set<u32>>, cur: int, master: Set<u32>, n: nat) -> (
    Seq<Set<u32>>,
    int,
    Set<u32>,
)
    decreases n,
{
    if n == 0 {
        (slots, cur, master)
    } else {
        let s = wheel_step(slots, cur, master);
        wheel_run(s.0, s.1, s.2, (n - 1) as nat)
    }
}

/// Number of ticks from pointer position `c` until the slot `target` is
/// evicted (in `1..=TIMING_WHEEL_TICKS`; a slot just marked takes a full
/// revolution).
pub open spec fn steps_until(c: int, target: int) -> int {
    if target > c {
        target - c
    } else {
        target - c + TIMING_WHEEL_TICKS as int
    }
}

proof fn lemma_wheel_run_keeps(
    slots: Seq<Set<u32>>,
    c: int,
    master: Set<u32>,
    id: u32,
    slot_pos: int,
    n: nat,
)
    requires
        slots.len() == TIMING_WHEEL_TICKS,
        0 <= c < TIMING_WHEEL_TICKS,
        0 <= slot_pos < TIMING_WHEEL_TICKS,
        master.contains(id),
        slots[slot_pos].contains(id),
        forall|k: int|
            0 <= k < TIMING_WHEEL_TICKS && k != slot_pos ==> !slots[k].contains(id),
        n <= steps_until(c, slot_pos),
    ensures
        ({
            let r = wheel_run(slots, c, master, n);
            &&& n < steps_until(c, slot_pos) ==> {
                &&& r.2.contains(id)
                &&& r.0.len() == TIMING_WHEEL_TICKS
                &&& r.0[slot_pos] == slots[slot_pos]
                &&& forall|k: int|
                    0 <= k < TIMING_WHEEL_TICKS && k != slot_pos ==> !r.0[k].contains(id)
            }
            &&& n == steps_until(c, slot_pos) ==> !r.2.contains(id)
        }),
    decreases n,
{
    if n == 0 {
    } else {
        let s = wheel_step(slots, c, master);
        let next = (c + 1) % (TIMING_WHEEL_TICKS as int);
        if c + 1 < TIMING_WHEEL_TICKS as int {
            vstd::arithmetic::div_mod::lemma_small_mod((c + 1) as nat, TIMING_WHEEL_TICKS as nat);
        } else {
            vstd::arithmetic::div_mod::lemma_mod_self_0(TIMING_WHEEL_TICKS as int);
        }
        assert(next == if c + 1 < TIMING_WHEEL_TICKS as int {
            c + 1
        } else {
            0
        });
        if next == slot_pos {
            assert(steps_until(c, slot_pos) == 1);
            assert(!s.2.contains(id));
            assert(wheel_run(slots, c, master, n) == wheel_run(s.0, s.1, s.2, (n - 1) as nat));
        } else {
            assert(s.2.contains(id));
            assert(s.0[slot_pos] == slots[slot_pos]);
            assert(steps_until(next, slot_pos) == steps_until(c, slot_pos) - 1);
            lemma_wheel_run_keeps(s.0, s.1, s.2, id, slot_pos, (n - 1) as nat);
        }
    }
}

/// Expiry law of the wheel: if a user's id is on cooldown in the master set
/// and marked only in the slot the pointer currently stands at, then after
/// strictly fewer than `TIMING_WHEEL_TICKS` ticks the master set still holds
/// the id, and after exactly `TIMING_WHEEL_TICKS` ticks it no longer does.
pub proof fn lemma_cooldown_expires(
    slots: Seq<Set<u32>>,
    cur: int,
    master: Set<u32>,
    id: u32,
    n: nat,
)
    requires
        slots.len() == TIMING_WHEEL_TICKS,
        0 <= cur < TIMING_WHEEL_TICKS,
        master.contains(id),
        slots[cur].contains(id),
        forall|k: int| 0 <= k < TIMING_WHEEL_TICKS && k != cur ==> !slots[k].contains(id),
        n <= TIMING_WHEEL_TICKS,
    ensures
        n < TIMING_WHEEL_TICKS ==> wheel_run(slots, cur, master, n).2.contains(id),
        n == TIMING_WHEEL_TICKS ==> !wheel_run(slots, cur, master, n).2.contains(id),
{
    assert(steps_until(cur, cur) == TIMING_WHEEL_TICKS as int);
    lemma_wheel_run_keeps(slots, cur, master, id, cur, n);
}

/// Ring of per-tick cooldown bitsets with the current-tick pointer.
pub struct TimingWheel {
    wheel: Vec<CooldownArray>,
    current_tick: usize,
}

impl TimingWheel {
    pub closed spec fn wf(self) -> bool {
        &&& self.wheel@.len() == TIMING_WHEEL_TICKS
        &&& forall|i: int| 0 <= i < TIMING_WHEEL_TICKS ==> self.wheel@[i].wf()
        &&& self.current_tick < TIMING_WHEEL_TICKS
    }

    /// The per-slot sets of ids scheduled for eviction.
    pub closed spec fn slots(self) -> Seq<Set<u32>> {
        Seq::new(TIMING_WHEEL_TICKS as nat, |i: int| self.wheel@[i].marked())
    }

    /// The current pointer position.
    pub closed spec fn current(self) -> int {
        self.current_tick as int
    }

    pub fn new() -> (r: Self)
        ensures
            r.wf(),
            r.current() == 0,
            forall|i: int|
                0 <= i < TIMING_WHEEL_TICKS ==> r.slots()[i] == Set::<u32>::empty(),
    {
        let mut wheel: Vec<CooldownArray> = Vec::new();
        let mut i: usize = 0;
        while i < TIMING_WHEEL_TICKS
            invariant
                i <= TIMING_WHEEL_TICKS,
                wheel@.len() == i,
                forall|k: int| 0 <= k < i ==> wheel@[k].wf(),
                forall|k: int| 0 <= k < i ==> wheel@[k].marked() == Set::<u32>::empty(),
            decreases TIMING_WHEEL_TICKS - i,
        {
            wheel.push(CooldownArray::new());
            i = i + 1;
        }
        TimingWheel { wheel, current_tick: 0 }
    }

    /// Advances the pointer and performs the mass eviction of the slot it
    /// lands on: exactly one step of the wheel model.
    pub fn tick(&mut self, master: &mut CooldownArray)
        requires
            old(self).wf(),
            old(master).wf(),
        ensures
            final(self).wf(),
            final(master).wf(),
            ({
                let stepped = wheel_step(
                    old(self).slots(),
                    old(self).current(),
                    old(master).marked(),
                );
                &&& final(self).slots() == stepped.0
                &&& final(self).current() == stepped.1
                &&& final(master).marked() == stepped.2
            }),
    {
        let next = (self.current_tick + 1) % TIMING_WHEEL_TICKS;
        self.current_tick = next;
        master.evict_and_reset(&mut self.wheel[next]);
        proof {
            let stepped = wheel_step(old(self).slots(), old(self).current(), old(master).marked());
            let prev = old(self).current();
            if prev + 1 < TIMING_WHEEL_TICKS as int {
                vstd::arithmetic::div_mod::lemma_small_mod(
                    (prev + 1) as nat,
                    TIMING_WHEEL_TICKS as nat,
                );
            } else {
                vstd::arithmetic::div_mod::lemma_mod_self_0(TIMING_WHEEL_TICKS as int);
            }
            assert(next as int == stepped.1);
            assert(self.slots() =~= stepped.0);
        }
    }

    /// Schedules the user for eviction one full revolution from now by
    /// marking it in the slot the pointer currently stands at.
    pub fn add_cooldown(&mut self, local_id: u32)
        requires
            old(self).wf(),
            (local_id as int) < (MAX_CONNECTIONS_PER_WORKER as int),
        ensures
            final(self).wf(),
            final(self).current() == old(self).current(),
            final(self).slots() == old(self).slots().update(
                old(self).current(),
                old(self).slots()[old(self).current()].insert(local_id),
            ),
    {
        let idx = self.current_tick;
        self.wheel[idx].set_cooldown(local_id);
        proof {
            assert(self.slots() =~= old(self).slots().update(
                old(self).current(),
                old(self).slots()[old(self).current()].insert(local_id),
            ));
        }
    }
}

} // verus!
