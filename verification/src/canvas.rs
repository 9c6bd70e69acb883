//! The canvas and the snapshot buffer pool.
//!
//! The master is the single writer of the live canvas. Snapshots are
//! published into a fixed pool of buffers: the master fills the next slot
//! (raw copy, then run-length compression, then the compressed length) and
//! only then advances the active index, so the slot the index points at is
//! always fully written once a publication has happened.

use vstd::prelude::*;
use vstd::pervasive::VecAdditionalExecFns;
use crate::rle::rle_encode;
use crate::settings::{CANVAS_BUFFER_POOL_SIZE, CANVAS_HEIGHT, CANVAS_SIZE, CANVAS_WIDTH};

verus! {

/// The canvas value after one bounded pixel store: out-of-range coordinates
/// are a no-op.
pub open spec fn canvas_set(c: Seq<u8>, x: int, y: int, color: u8) -> Seq<u8> {
    if 0 <= x < CANVAS_WIDTH && 0 <= y < CANVAS_HEIGHT {
        c.update(y * CANVAS_WIDTH + x, color)
    } else {
        c
    }
}

/// One raw snapshot buffer of the pool.
pub struct CanvasBuffer {
    pub data: Vec<u8>,
}

impl CanvasBuffer {
    pub open spec fn wf(self) -> bool {
        self.data@.len() == CANVAS_SIZE
    }

    pub fn new() -> (r: Self)
        ensures
            r.wf(),
            r.data@ == Seq::new(CANVAS_SIZE as nat, |i: int| 0u8),
    {
        let r = CanvasBuffer { data: vec![0u8; CANVAS_SIZE] };
        proof {
            assert(r.data@ =~= Seq::new(CANVAS_SIZE as nat, |i: int| 0u8));
        }
        r
    }
}

/// One compressed snapshot buffer; sized for the worst case of the
/// run-length codec, which doubles the input.
pub struct CompressedBuffer {
    pub data: Vec<u8>,
}

impl CompressedBuffer {
    pub open spec fn wf(self) -> bool {
        self.data@.len() == 2 * CANVAS_SIZE
    }

    pub fn new() -> (r: Self)
        ensures
            r.wf(),
            r.data@ == Seq::new((2 * CANVAS_SIZE) as nat, |i: int| 0u8),
    {
        let r = CompressedBuffer { data: vec![0u8; 2 * CANVAS_SIZE] };
        proof {
            assert(r.data@ =~= Seq::new((2 * CANVAS_SIZE) as nat, |i: int| 0u8));
        }
        r
    }
}

/// The live canvas: a contiguous `CANVAS_WIDTH x CANVAS_HEIGHT` byte grid.
pub struct Canvas {
    pub pixels: Vec<u8>,
}

impl Canvas {
    pub open spec fn wf(self) -> bool {
        self.pixels@.len() == CANVAS_SIZE
    }

    pub fn new() -> (r: Self)
        ensures
            r.wf(),
            r.pixels@ == Seq::new(CANVAS_SIZE as nat, |i: int| 0u8),
    {
        let r = Canvas { pixels: vec![0u8; CANVAS_SIZE] };
        proof {
            assert(r.pixels@ =~= Seq::new(CANVAS_SIZE as nat, |i: int| 0u8));
        }
        r
    }

    /// Bounds-checked pixel store; writes outside the canvas are dropped.
    pub fn set_pixel(&mut self, x: usize, y: usize, color: u8)
        requires
            old(self).wf(),
        ensures
            final(self).wf(),
            final(self).pixels@ == canvas_set(old(self).pixels@, x as int, y as int, color),
    {
        if x < CANVAS_WIDTH && y < CANVAS_HEIGHT {
            let index = y * CANVAS_WIDTH + x;
            self.pixels.set(index, color);
        }
    }

    /// Copies the live canvas into the pool's raw buffer `target_index`.
    /// The copied slot holds exactly the canvas as it is at the moment of
    /// the call; every other slot and the active index are untouched.
    pub fn snapshot_to_pool(&self, pool: &mut BufferPool, target_index: usize)
        requires
            self.wf(),
            old(pool).wf(),
            target_index < CANVAS_BUFFER_POOL_SIZE,
        ensures
            final(pool).wf(),
            final(pool).raw_at(target_index as int) == self.pixels@,
            forall|i: int|
                0 <= i < CANVAS_BUFFER_POOL_SIZE && i != target_index ==> final(pool).raw_at(i)
                    == old(pool).raw_at(i),
            forall|i: int|
                0 <= i < CANVAS_BUFFER_POOL_SIZE ==> final(pool).compressed_at(i) == old(
                    pool,
                ).compressed_at(i),
            final(pool).lens() == old(pool).lens(),
            final(pool).active() == old(pool).active(),
    {
        let copy = self.pixels.clone();
        proof {
            assert(copy@ =~= self.pixels@);
        }
        pool.raw.set(target_index, CanvasBuffer { data: copy });
    }
}

/// Fixed pool of snapshot buffers published to readers by index rotation.
pub struct BufferPool {
    raw: Vec<CanvasBuffer>,
    compressed: Vec<CompressedBuffer>,
    compressed_lens: Vec<usize>,
    active_index: usize,
}

impl BufferPool {
    pub closed spec fn wf(self) -> bool {
        &&& self.raw@.len() == CANVAS_BUFFER_POOL_SIZE
        &&& forall|i: int| 0 <= i < CANVAS_BUFFER_POOL_SIZE ==> self.raw@[i].wf()
        &&& self.compressed@.len() == CANVAS_BUFFER_POOL_SIZE
        &&& forall|i: int| 0 <= i < CANVAS_BUFFER_POOL_SIZE ==> self.compressed@[i].wf()
        &&& self.compressed_lens@.len() == CANVAS_BUFFER_POOL_SIZE
        &&& forall|i: int|
            0 <= i < CANVAS_BUFFER_POOL_SIZE ==> self.compressed_lens@[i] <= 2 * CANVAS_SIZE
        &&& self.active_index < CANVAS_BUFFER_POOL_SIZE
    }

    /// Contents of raw snapshot buffer `i`.
    pub closed spec fn raw_at(self, i: int) -> Seq<u8> {
        self.raw@[i].data@
    }

    /// Contents of compressed buffer `i` (the whole backing buffer).
    pub closed spec fn compressed_at(self, i: int) -> Seq<u8> {
        self.compressed@[i].data@
    }

    /// The recorded compressed lengths.
    pub closed spec fn lens(self) -> Seq<usize> {
        self.compressed_lens@
    }

    /// The active index: the slot readers currently consume.
    pub closed spec fn active(self) -> int {
        self.active_index as int
    }

    /// The published payload of slot `i`: the compressed prefix of recorded
    /// length.
    pub open spec fn payload_at(self, i: int) -> Seq<u8> {
        self.compressed_at(i).take(self.lens()[i] as int)
    }

    /// Slot `i` is fully written: its payload is exactly the run-length
    /// encoding of its raw snapshot. The publication protocol establishes
    /// this for the active slot before the index ever reaches it, which is
    /// what makes the index swap safe for readers.
    pub open spec fn slot_published(self, i: int) -> bool {
        self.payload_at(i) == rle_encode(self.raw_at(i))
    }

    pub fn new() -> (r: Self)
        ensures
            r.wf(),
            r.active() == 0,
            forall|i: int|
                0 <= i < CANVAS_BUFFER_POOL_SIZE ==> r.raw_at(i) == Seq::new(
                    CANVAS_SIZE as nat,
                    |j: int| 0u8,
                ),
            forall|i: int| 0 <= i < CANVAS_BUFFER_POOL_SIZE ==> r.lens()[i] == 0,
    {
        let mut raw: Vec<CanvasBuffer> = Vec::new();
        let mut compressed: Vec<CompressedBuffer> = Vec::new();
        let mut compressed_lens: Vec<usize> = Vec::new();
        let mut i: usize = 0;
        while i < CANVAS_BUFFER_POOL_SIZE
            invariant
                i <= CANVAS_BUFFER_POOL_SIZE,
                raw@.len() == i,
                compressed@.len() == i,
                compressed_lens@.len() == i,
                forall|k: int|
                    0 <= k < i ==> raw@[k].wf() && raw@[k].data@ == Seq::new(
                        CANVAS_SIZE as nat,
                        |j: int| 0u8,
                    ),
                forall|k: int| 0 <= k < i ==> compressed@[k].wf(),
                forall|k: int| 0 <= k < i ==> compressed_lens@[k] == 0,
            decreases CANVAS_BUFFER_POOL_SIZE - i,
        {
            raw.push(CanvasBuffer::new());
            compressed.push(CompressedBuffer::new());
            compressed_lens.push(0);
            i = i + 1;
        }
        BufferPool { raw, compressed, compressed_lens, active_index: 0 }
    }

    /// Read access to the raw bytes of a slot (readers consume the slot the
    /// active index points at).
    pub fn raw_slice(&self, slot: usize) -> (r: &[u8])
        requires
            self.wf(),
            slot < CANVAS_BUFFER_POOL_SIZE,
        ensures
            r@ == self.raw_at(slot as int),
            r@.len() == CANVAS_SIZE,
    {
        self.raw[slot].data.as_slice()
    }

    /// Copies the published payload of a slot out of the pool: the
    /// compressed prefix of recorded length.
    pub fn payload_of(&self, slot: usize) -> (r: Vec<u8>)
        requires
            self.wf(),
            slot < CANVAS_BUFFER_POOL_SIZE,
        ensures
            r@ == self.payload_at(slot as int),
    {
        let len = self.compressed_lens[slot];
        let mut r: Vec<u8> = Vec::new();
        let mut i: usize = 0;
        while i < len
            invariant
                i <= len,
                self.wf(),
                slot < CANVAS_BUFFER_POOL_SIZE,
                len == self.lens()[slot as int],
                r@ =~= self.compressed_at(slot as int).take(i as int),
            decreases len - i,
        {
            r.push(self.compressed[slot].data[i]);
            i = i + 1;
        }
        proof {
            assert(r@ =~= self.payload_at(slot as int));
        }
        r
    }

    /// Fills the next slot from the canvas (raw copy, compression, recorded
    /// length) and only then advances the active index to it.
    pub fn publish_from(&mut self, canvas: &Canvas)
        requires
            old(self).wf(),
            canvas.wf(),
        ensures
            final(self).wf(),
            final(self).active() == (old(self).active() + 1) % (CANVAS_BUFFER_POOL_SIZE as int),
            final(self).raw_at(final(self).active()) == canvas.pixels@,
            final(self).payload_at(final(self).active()) == rle_encode(canvas.pixels@),
            final(self).slot_published(final(self).active()),
            forall|i: int|
                0 <= i < CANVAS_BUFFER_POOL_SIZE && i != final(self).active() ==> {
                    &&& final(self).raw_at(i) == old(self).raw_at(i)
                    &&& final(self).compressed_at(i) == old(self).compressed_at(i)
                    &&& final(self).lens()[i] == old(self).lens()[i]
                },
    {
        let next = (self.active_index + 1) & (CANVAS_BUFFER_POOL_SIZE - 1);
        proof {
            let a = old(self).active_index;
            let b = (a + 1) as usize;
            assert(b & 15usize == b % 16usize) by (bit_vector)
                requires
                    b <= 16usize,
            ;
        }
        canvas.snapshot_to_pool(self, next);
        let clen = crate::rle::rle_compress(
            canvas.pixels.as_slice(),
            self.compressed[next].data.as_mut_slice(),
        );
        self.compressed_lens.set(next, clen);
        self.active_index = next;
    }

    /// The currently active slot index.
    pub fn active_slot(&self) -> (r: usize)
        requires
            self.wf(),
        ensures
            r as int == self.active(),
            r < CANVAS_BUFFER_POOL_SIZE,
    {
        self.active_index
    }
}

} // verus!
