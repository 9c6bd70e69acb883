//! Broadcast framing: splitting payloads into datagram-sized chunks.
//!
//! Full snapshots and diff streams are sent in chunks of at most
//! `BROADCAST_CHUNK_SIZE` bytes; there is no per-chunk header, clients
//! reassemble by concatenation.

use vstd::prelude::*;
use crate::settings::BROADCAST_CHUNK_SIZE;

verus! {

/// The chunking of a payload: consecutive pieces of at most
/// `BROADCAST_CHUNK_SIZE` bytes whose concatenation is the payload.
pub open spec fn chunks_of(s: Seq<u8>) -> Seq<Seq<u8>>
    decreases s.len(),
{
    if s.len() == 0 {
        Seq::empty()
    } else if s.len() <= BROADCAST_CHUNK_SIZE {
        seq![s]
    } else {
        seq![s.take(BROADCAST_CHUNK_SIZE as int)] + chunks_of(s.skip(BROADCAST_CHUNK_SIZE as int))
    }
}

/// Chunking law: every chunk is non-empty and at most
/// `BROADCAST_CHUNK_SIZE` bytes, and the chunks concatenate back to the
/// payload.
pub proof fn lemma_chunks_of(s: Seq<u8>)
    ensures
        forall|i: int|
            0 <= i < chunks_of(s).len() ==> 0 < #[trigger] chunks_of(s)[i].len()
                <= BROADCAST_CHUNK_SIZE,
        chunks_of(s).flatten() == s,
    decreases s.len(),
{
    if s.len() == 0 {
        assert(chunks_of(s).flatten() =~= s);
    } else if s.len() <= BROADCAST_CHUNK_SIZE {
        assert(chunks_of(s) == seq![s]);
        assert(seq![s].drop_first() =~= Seq::<Seq<u8>>::empty());
        assert(Seq::<Seq<u8>>::empty().flatten() =~= Seq::<u8>::empty());
        assert(chunks_of(s).flatten() =~= s);
    } else {
        let head = s.take(BROADCAST_CHUNK_SIZE as int);
        let tail = s.skip(BROADCAST_CHUNK_SIZE as int);
        lemma_chunks_of(tail);
        let cs = seq![head] + chunks_of(tail);
        assert(chunks_of(s) == cs);
        assert(cs.first() == head);
        assert(cs.drop_first() =~= chunks_of(tail));
        assert(cs.flatten() == head + chunks_of(tail).flatten());
        assert(chunks_of(s).flatten() =~= s);
        assert forall|i: int|
            0 <= i < chunks_of(s).len() implies 0 < #[trigger] chunks_of(s)[i].len()
            <= BROADCAST_CHUNK_SIZE by {
            if i > 0 {
                assert(chunks_of(s)[i] == chunks_of(tail)[i - 1]);
            }
        }
    }
}

/// Splits a payload into broadcast chunks.
pub fn chunk_payload(data: &[u8]) -> (r: Vec<Vec<u8>>)
    ensures
        r@.map_values(|c: Vec<u8>| c@) == chunks_of(data@),
{
    let len = data.len();
    let mut r: Vec<Vec<u8>> = Vec::new();
    let mut start: usize = 0;
    proof {
        assert(r@.map_values(|c: Vec<u8>| c@) =~= Seq::<Seq<u8>>::empty());
        assert(data@.skip(0) =~= data@);
        assert(Seq::<Seq<u8>>::empty() + chunks_of(data@) =~= chunks_of(data@));
    }
    while start < len
        invariant
            start <= len,
            len == data@.len(),
            chunks_of(data@) == r@.map_values(|c: Vec<u8>| c@) + chunks_of(
                data@.skip(start as int),
            ),
        decreases len - start,
    {
        let k = if len - start <= BROADCAST_CHUNK_SIZE {
            len - start
        } else {
            BROADCAST_CHUNK_SIZE
        };
        let mut chunk: Vec<u8> = Vec::new();
        let mut j: usize = start;
        while j < start + k
            invariant
                start <= j <= start + k,
                start + k <= len,
                len == data@.len(),
                chunk@ =~= data@.subrange(start as int, j as int),
            decreases start + k - j,
        {
            chunk.push(data[j]);
            j = j + 1;
        }
        let ghost prev = r@.map_values(|c: Vec<u8>| c@);
        let ghost rest = data@.skip(start as int);
        r.push(chunk);
        proof {
            assert(r@.map_values(|c: Vec<u8>| c@) =~= prev.push(
                data@.subrange(start as int, (start + k) as int),
            ));
            assert(rest.take(k as int) =~= data@.subrange(start as int, (start + k) as int));
            assert(rest.skip(k as int) =~= data@.skip((start + k) as int));
            if rest.len() <= BROADCAST_CHUNK_SIZE {
                assert(k == rest.len());
                assert(chunks_of(rest) == seq![rest]);
                assert(rest.take(k as int) =~= rest);
                assert(data@.skip((start + k) as int) =~= Seq::<u8>::empty());
                assert(chunks_of(data@.skip((start + k) as int)) == Seq::<Seq<u8>>::empty());
                assert(prev.push(rest) + Seq::<Seq<u8>>::empty() =~= prev + seq![rest]);
                assert(prev + chunks_of(rest) =~= prev.push(rest));
            } else {
                assert(k == BROADCAST_CHUNK_SIZE);
                assert(chunks_of(rest) == seq![rest.take(BROADCAST_CHUNK_SIZE as int)]
                    + chunks_of(rest.skip(BROADCAST_CHUNK_SIZE as int)));
                assert(prev + (seq![rest.take(k as int)] + chunks_of(rest.skip(k as int))) =~= (
                prev.push(rest.take(k as int))) + chunks_of(rest.skip(k as int)));
            }
        }
        start = start + k;
    }
    proof {
        assert(data@.skip(start as int) =~= Seq::<u8>::empty());
        assert(chunks_of(data@.skip(start as int)) == Seq::<Seq<u8>>::empty());
        assert(r@.map_values(|c: Vec<u8>| c@) + Seq::<Seq<u8>>::empty() =~= r@.map_values(
            |c: Vec<u8>| c@,
        ));
    }
    r
}

/// The snapshot cadence of the standalone broadcast role (merged into the
/// master in the current design): one publication every five seconds.
pub struct BroadcastCore {
    interval_ms: u64,
}

impl BroadcastCore {
    /// The publication interval in milliseconds.
    pub closed spec fn interval(self) -> u64 {
        self.interval_ms
    }

    pub fn new() -> (r: Self)
        ensures
            r.interval() == 5000,
    {
        BroadcastCore { interval_ms: 5000 }
    }

    /// Whether a publication is due at `now_ms`, given the last one.
    pub fn due(&self, last_ms: u64, now_ms: u64) -> (r: bool)
        requires
            now_ms >= last_ms,
        ensures
            r == (now_ms - last_ms >= self.interval()),
    {
        now_ms - last_ms >= self.interval_ms
    }
}

} // verus!
