//! The master role: single writer of the live canvas.
//!
//! The master drains each worker's queue in bounded batches, applies the
//! writes to the canvas, and periodically publishes a compressed snapshot
//! into the buffer pool by index rotation.

use vstd::prelude::*;
use vstd::math::min;
use crate::canvas::{canvas_set, BufferPool, Canvas};
use crate::rle::rle_encode;
use crate::settings::{CANVAS_BUFFER_POOL_SIZE, MASTER_BATCH_DRAIN};
use crate::spsc::SpscRingBuffer;

verus! {

/// One accepted pixel write travelling from a worker to the master.
#[derive(Clone, Copy, PartialEq, Eq, Structural, Debug)]
pub struct PixelWrite {
    pub x: u16,
    pub y: u16,
    pub color: u8,
}

/// The canvas value after applying one pixel write.
pub open spec fn apply_write(c: Seq<u8>, p: PixelWrite) -> Seq<u8> {
    canvas_set(c, p.x as int, p.y as int, p.color)
}

/// The canvas value after applying a sequence of writes in order.
pub open spec fn apply_writes(c: Seq<u8>, ws: Seq<PixelWrite>) -> Seq<u8>
    decreases ws.len(),
{
    if ws.len() == 0 {
        c
    } else {
        apply_writes(apply_write(c, ws[0]), ws.skip(1))
    }
}

pub proof fn lemma_apply_writes_snoc(c: Seq<u8>, ws: Seq<PixelWrite>, p: PixelWrite)
    ensures
        apply_writes(c, ws.push(p)) == apply_write(apply_writes(c, ws), p),
    decreases ws.len(),
{
    if ws.len() == 0 {
        assert(ws.push(p)[0] == p);
        assert(ws.push(p).skip(1) =~= Seq::<PixelWrite>::empty());
        assert(apply_writes(c, ws.push(p)) == apply_writes(
            apply_write(c, p),
            Seq::<PixelWrite>::empty(),
        ));
        assert(apply_writes(apply_write(c, p), Seq::<PixelWrite>::empty()) == apply_write(c, p));
        assert(apply_writes(c, ws) == c);
    } else {
        assert(ws.push(p)[0] == ws[0]);
        assert(ws.push(p).skip(1) =~= ws.skip(1).push(p));
        lemma_apply_writes_snoc(apply_write(c, ws[0]), ws.skip(1), p);
        assert(apply_writes(c, ws.push(p)) == apply_writes(
            apply_write(c, ws[0]),
            ws.skip(1).push(p),
        ));
        assert(apply_writes(c, ws) == apply_writes(apply_write(c, ws[0]), ws.skip(1)));
    }
}

/// The prefix of a queue the master takes in one bounded batch.
pub open spec fn batch_take(q: Seq<PixelWrite>) -> Seq<PixelWrite> {
    q.take(min(q.len() as int, MASTER_BATCH_DRAIN as int))
}

/// The canvas value after one drain round over all queues, in order.
pub open spec fn drain_all(c: Seq<u8>, qs: Seq<Seq<PixelWrite>>) -> Seq<u8>
    decreases qs.len(),
{
    if qs.len() == 0 {
        c
    } else {
        drain_all(apply_writes(c, batch_take(qs[0])), qs.skip(1))
    }
}

pub proof fn lemma_drain_all_snoc(c: Seq<u8>, qs: Seq<Seq<PixelWrite>>, q: Seq<PixelWrite>)
    ensures
        drain_all(c, qs.push(q)) == apply_writes(drain_all(c, qs), batch_take(q)),
    decreases qs.len(),
{
    if qs.len() == 0 {
        assert(qs.push(q)[0] == q);
        assert(qs.push(q).skip(1) =~= Seq::<Seq<PixelWrite>>::empty());
        assert(drain_all(c, qs.push(q)) == drain_all(
            apply_writes(c, batch_take(q)),
            Seq::<Seq<PixelWrite>>::empty(),
        ));
        assert(drain_all(apply_writes(c, batch_take(q)), Seq::<Seq<PixelWrite>>::empty())
            == apply_writes(c, batch_take(q)));
        assert(drain_all(c, qs) == c);
    } else {
        assert(qs.push(q)[0] == qs[0]);
        assert(qs.push(q).skip(1) =~= qs.skip(1).push(q));
        lemma_drain_all_snoc(apply_writes(c, batch_take(qs[0])), qs.skip(1), q);
        assert(drain_all(c, qs.push(q)) == drain_all(
            apply_writes(c, batch_take(qs[0])),
            qs.skip(1).push(q),
        ));
        assert(drain_all(c, qs) == drain_all(apply_writes(c, batch_take(qs[0])), qs.skip(1)));
    }
}

/// Pops up to `max` writes from one queue and applies them to the canvas in
/// arrival order. Returns how many writes were applied.
pub fn drain_queue(canvas: &mut Canvas, queue: &mut SpscRingBuffer<PixelWrite>, max: usize) -> (n:
    usize)
    requires
        old(canvas).wf(),
        old(queue).wf(),
    ensures
        final(canvas).wf(),
        final(queue).wf(),
        n as int == min(max as int, old(queue).contents().len() as int),
        final(queue).contents() == old(queue).contents().skip(n as int),
        final(queue).pushed_log() == old(queue).pushed_log(),
        final(queue).popped_log() == old(queue).popped_log() + old(queue).contents().take(
            n as int,
        ),
        final(canvas).pixels@ == apply_writes(
            old(canvas).pixels@,
            old(queue).contents().take(n as int),
        ),
{
    let mut n: usize = 0;
    proof {
        assert(old(queue).contents().take(0) =~= Seq::<PixelWrite>::empty());
        assert(old(queue).popped_log() + Seq::<PixelWrite>::empty() =~= old(queue).popped_log());
        assert(old(queue).contents().skip(0) =~= old(queue).contents());
    }
    while n < max
        invariant_except_break
            n <= max,
            canvas.wf(),
            queue.wf(),
            n <= old(queue).contents().len(),
            queue.contents() == old(queue).contents().skip(n as int),
            queue.pushed_log() == old(queue).pushed_log(),
            queue.popped_log() == old(queue).popped_log() + old(queue).contents().take(n as int),
            canvas.pixels@ == apply_writes(
                old(canvas).pixels@,
                old(queue).contents().take(n as int),
            ),
        ensures
            n <= max,
            canvas.wf(),
            queue.wf(),
            n <= old(queue).contents().len(),
            queue.contents() == old(queue).contents().skip(n as int),
            queue.pushed_log() == old(queue).pushed_log(),
            queue.popped_log() == old(queue).popped_log() + old(queue).contents().take(n as int),
            canvas.pixels@ == apply_writes(
                old(canvas).pixels@,
                old(queue).contents().take(n as int),
            ),
            n == max || queue.contents().len() == 0,
        decreases max - n,
    {
        let ghost prev_taken = old(queue).contents().take(n as int);
        match queue.pop() {
            Some(p) => {
                proof {
                    assert(old(queue).contents().skip(n as int)[0] == old(
                        queue,
                    ).contents()[n as int]);
                }
                canvas.set_pixel(p.x as usize, p.y as usize, p.color);
                proof {
                    lemma_apply_writes_snoc(old(canvas).pixels@, prev_taken, p);
                    assert(prev_taken.push(p) =~= old(queue).contents().take(n + 1));
                    assert(old(queue).contents().skip(n as int).skip(1) =~= old(
                        queue,
                    ).contents().skip(n + 1));
                    assert(old(queue).popped_log() + prev_taken.push(p) =~= (old(
                        queue,
                    ).popped_log() + prev_taken).push(p));
                }
                n = n + 1;
            },
            None => {
                break ;
            },
        }
    }
    n
}

/// The canvas sequence lock: odd while a drain batch is being applied,
/// even when the canvas is stable. A reader that wants a point-in-time view
/// of the live canvas samples the counter before and after its read and
/// retries on a mismatch or an odd value.
pub struct CanvasSeq {
    seq: u64,
}

impl CanvasSeq {
    /// The counter's value.
    pub closed spec fn value(self) -> u64 {
        self.seq
    }

    /// Even means no drain batch is in progress.
    pub open spec fn stable(self) -> bool {
        self.value() % 2 == 0
    }

    pub fn new() -> (r: Self)
        ensures
            r.value() == 0,
            r.stable(),
    {
        CanvasSeq { seq: 0 }
    }

    /// Marks the start of a drain batch: the counter becomes odd.
    pub fn begin_write(&mut self)
        requires
            old(self).stable(),
        ensures
            final(self).value() == old(self).value().wrapping_add(1),
            !final(self).stable(),
    {
        proof {
            lemma_wrapping_inc_parity(self.seq);
        }
        self.seq = self.seq.wrapping_add(1);
    }

    /// Marks the end of a drain batch: the counter becomes even again.
    pub fn end_write(&mut self)
        requires
            !old(self).stable(),
        ensures
            final(self).value() == old(self).value().wrapping_add(1),
            final(self).stable(),
    {
        proof {
            lemma_wrapping_inc_parity(self.seq);
        }
        self.seq = self.seq.wrapping_add(1);
    }

    /// The current counter value, for a reader's before/after samples.
    pub fn sample(&self) -> (r: u64)
        ensures
            r == self.value(),
    {
        self.seq
    }
}

proof fn lemma_wrapping_inc_parity(s: u64)
    by (bit_vector)
    ensures
        s % 2 == 0 ==> s.wrapping_add(1) % 2 == 1,
        s % 2 == 1 ==> s.wrapping_add(1) % 2 == 0,
{
}

/// A reader's validation of a seqlocked read: the two samples must agree
/// and show no write in progress.
pub fn seq_read_consistent(first: u64, second: u64) -> (r: bool)
    ensures
        r == (first == second && first % 2 == 0),
{
    first == second && first % 2 == 0
}

/// The master: owns the canvas and the consumer side of every worker queue.
pub struct MasterCore {
    pub queues: Vec<SpscRingBuffer<PixelWrite>>,
    pub canvas: Canvas,
}

impl MasterCore {
    pub open spec fn wf(self) -> bool {
        &&& self.canvas.wf()
        &&& forall|i: int| 0 <= i < self.queues@.len() ==> self.queues@[i].wf()
    }

    /// The queued writes of every worker, in worker order.
    pub open spec fn queue_contents(self) -> Seq<Seq<PixelWrite>> {
        Seq::new(self.queues@.len(), |i: int| self.queues@[i].contents())
    }

    pub fn new(workers: Vec<SpscRingBuffer<PixelWrite>>, canvas: Canvas) -> (r: Self)
        requires
            canvas.wf(),
            forall|i: int| 0 <= i < workers@.len() ==> workers@[i].wf(),
        ensures
            r.wf(),
            r.canvas == canvas,
            r.queue_contents() == Seq::new(workers@.len(), |i: int| workers@[i].contents()),
    {
        let r = MasterCore { queues: workers, canvas };
        proof {
            assert(r.queue_contents() =~= Seq::new(
                r.queues@.len(),
                |i: int| r.queues@[i].contents(),
            ));
        }
        r
    }

    /// One round of the master loop's drain phase: from each queue in turn,
    /// pop up to `MASTER_BATCH_DRAIN` writes and apply them to the canvas.
    pub fn drain_round(&mut self)
        requires
            old(self).wf(),
        ensures
            final(self).wf(),
            final(self).canvas.pixels@ == drain_all(
                old(self).canvas.pixels@,
                old(self).queue_contents(),
            ),
            final(self).queue_contents().len() == old(self).queue_contents().len(),
            forall|i: int|
                0 <= i < old(self).queue_contents().len() ==> final(self).queue_contents()[i]
                    == old(self).queue_contents()[i].skip(
                    min(
                        old(self).queue_contents()[i].len() as int,
                        MASTER_BATCH_DRAIN as int,
                    ),
                ),
    {
        let count = self.queues.len();
        let mut w: usize = 0;
        proof {
            assert(old(self).queue_contents().take(0) =~= Seq::<Seq<PixelWrite>>::empty());
        }
        while w < count
            invariant
                w <= count,
                count == self.queues@.len(),
                count == old(self).queues@.len(),
                self.canvas.wf(),
                forall|i: int| 0 <= i < count ==> self.queues@[i].wf(),
                self.canvas.pixels@ == drain_all(
                    old(self).canvas.pixels@,
                    old(self).queue_contents().take(w as int),
                ),
                forall|i: int|
                    0 <= i < w ==> self.queues@[i].contents() == old(
                        self,
                    ).queue_contents()[i].skip(
                        min(
                            old(self).queue_contents()[i].len() as int,
                            MASTER_BATCH_DRAIN as int,
                        ),
                    ),
                forall|i: int| w <= i < count ==> self.queues@[i] == old(self).queues@[i],
            decreases count - w,
        {
            let ghost canvas_before = self.canvas.pixels@;
            let ghost q_before = self.queues@[w as int].contents();
            let n = drain_queue(&mut self.canvas, &mut self.queues[w], MASTER_BATCH_DRAIN);
            proof {
                lemma_drain_all_snoc(
                    old(self).canvas.pixels@,
                    old(self).queue_contents().take(w as int),
                    q_before,
                );
                assert(old(self).queue_contents().take(w as int).push(q_before) =~= old(
                    self,
                ).queue_contents().take(w + 1));
                assert(q_before.take(n as int) == batch_take(q_before));
            }
            w = w + 1;
        }
        proof {
            assert(old(self).queue_contents().take(count as int) =~= old(self).queue_contents());
        }
    }

    /// The publish phase of the master loop: fill the next pool slot from
    /// the canvas and advance the active index.
    pub fn publish(&self, pool: &mut BufferPool)
        requires
            self.wf(),
            old(pool).wf(),
        ensures
            final(pool).wf(),
            final(pool).active() == (old(pool).active() + 1) % (CANVAS_BUFFER_POOL_SIZE as int),
            final(pool).raw_at(final(pool).active()) == self.canvas.pixels@,
            final(pool).payload_at(final(pool).active()) == rle_encode(self.canvas.pixels@),
            final(pool).slot_published(final(pool).active()),
            forall|i: int|
                0 <= i < CANVAS_BUFFER_POOL_SIZE && i != final(pool).active() ==> {
                    &&& final(pool).raw_at(i) == old(pool).raw_at(i)
                    &&& final(pool).compressed_at(i) == old(pool).compressed_at(i)
                    &&& final(pool).lens()[i] == old(pool).lens()[i]
                },
    {
        pool.publish_from(&self.canvas);
    }
}

} // verus!
