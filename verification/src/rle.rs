//! Run-length codec for canvas snapshots.
//!
//! A byte sequence is encoded as a stream of pairs `(count, value)` with a
//! maximum run length of 255; the decoder is its exact inverse, bounded by
//! the destination capacity.

use vstd::prelude::*;

verus! {

/// Length of the maximal prefix of `s` whose bytes all equal `v`.
pub open spec fn head_run(s: Seq<u8>, v: u8) -> nat
    decreases s.len(),
{
    if s.len() == 0 || s[0] != v {
        0
    } else {
        1 + head_run(s.skip(1), v)
    }
}

/// The run the encoder consumes next: the head run, capped at 255.
pub open spec fn capped_head_run(s: Seq<u8>) -> nat {
    if head_run(s, s[0]) > 255 {
        255
    } else {
        head_run(s, s[0])
    }
}

/// The run-length encoding of `s`: pairs `(count, value)`, runs capped at 255.
pub open spec fn rle_encode(s: Seq<u8>) -> Seq<u8>
    decreases s.len(),
    via rle_encode_decreases
{
    if s.len() == 0 {
        Seq::empty()
    } else {
        seq![capped_head_run(s) as u8, s[0]] + rle_encode(s.skip(capped_head_run(s) as int))
    }
}

#[via_fn]
proof fn rle_encode_decreases(s: Seq<u8>) {
    if s.len() > 0 {
        lemma_head_run_le_len(s, s[0]);
    }
}

/// The decoding of a pair stream: each pair `(count, value)` contributes
/// `count` copies of `value`; a trailing odd byte is ignored.
pub open spec fn rle_decode(s: Seq<u8>) -> Seq<u8>
    decreases s.len(),
{
    if s.len() < 2 {
        Seq::empty()
    } else {
        Seq::new(s[0] as nat, |i: int| s[1]) + rle_decode(s.skip(2))
    }
}

pub proof fn lemma_head_run_le_len(s: Seq<u8>, v: u8)
    ensures
        head_run(s, v) <= s.len(),
    decreases s.len(),
{
    if s.len() > 0 && s[0] == v {
        lemma_head_run_le_len(s.skip(1), v);
    }
}

/// Every byte inside the head run equals the run's value.
pub proof fn lemma_head_run_prefix(s: Seq<u8>, v: u8)
    ensures
        forall|i: int| 0 <= i < head_run(s, v) ==> s[i] == v,
    decreases s.len(),
{
    lemma_head_run_le_len(s, v);
    if s.len() > 0 && s[0] == v {
        lemma_head_run_prefix(s.skip(1), v);
        assert forall|i: int| 0 <= i < head_run(s, v) implies s[i] == v by {
            if i > 0 {
                assert(s.skip(1)[i - 1] == s[i]);
            }
        }
    }
}

/// A run is determined by its extent: if the first `k` bytes equal `v` and
/// byte `k` (if any) differs, the head run has length exactly `k`.
pub proof fn lemma_head_run_exact(s: Seq<u8>, v: u8, k: nat)
    requires
        k <= s.len(),
        forall|i: int| 0 <= i < k ==> s[i] == v,
        k < s.len() ==> s[k as int] != v,
    ensures
        head_run(s, v) == k,
    decreases s.len(),
{
    if k == 0 {
    } else {
        assert(s[0] == v);
        assert forall|i: int| 0 <= i < k - 1 implies s.skip(1)[i] == v by {
            assert(s.skip(1)[i] == s[i + 1]);
        }
        if k - 1 < s.skip(1).len() {
            assert(s.skip(1)[k - 1] == s[k as int]);
        }
        lemma_head_run_exact(s.skip(1), v, (k - 1) as nat);
    }
}

/// If the first 255 bytes all equal `v`, the head run reaches the cap.
pub proof fn lemma_head_run_at_least(s: Seq<u8>, v: u8, k: nat)
    requires
        k <= s.len(),
        forall|i: int| 0 <= i < k ==> s[i] == v,
    ensures
        head_run(s, v) >= k,
    decreases s.len(),
{
    if k > 0 {
        assert(s[0] == v);
        assert forall|i: int| 0 <= i < k - 1 implies s.skip(1)[i] == v by {
            assert(s.skip(1)[i] == s[i + 1]);
        }
        lemma_head_run_at_least(s.skip(1), v, (k - 1) as nat);
    }
}

/// Decoding distributes over concatenation at a pair boundary.
pub proof fn lemma_decode_append(a: Seq<u8>, b: Seq<u8>)
    requires
        a.len() % 2 == 0,
    ensures
        rle_decode(a + b) == rle_decode(a) + rle_decode(b),
    decreases a.len(),
{
    if a.len() == 0 {
        assert(a + b =~= b);
        assert(rle_decode(a) + rle_decode(b) =~= rle_decode(b));
    } else {
        assert((a + b).skip(2) =~= a.skip(2) + b);
        lemma_decode_append(a.skip(2), b);
        assert(rle_decode(a + b) =~= rle_decode(a) + rle_decode(b));
    }
}

/// The encoded stream is made of whole pairs and never exceeds twice the
/// input's length.
pub proof fn lemma_encode_len(s: Seq<u8>)
    ensures
        rle_encode(s).len() % 2 == 0,
        rle_encode(s).len() <= 2 * s.len(),
    decreases s.len(),
{
    if s.len() > 0 {
        lemma_head_run_le_len(s, s[0]);
        lemma_encode_len(s.skip(capped_head_run(s) as int));
    }
}

/// Round trip: decoding an encoded sequence restores it exactly.
pub proof fn lemma_rle_round_trip(s: Seq<u8>)
    ensures
        rle_decode(rle_encode(s)) == s,
    decreases s.len(),
{
    if s.len() == 0 {
        assert(rle_decode(rle_encode(s)) =~= s);
    } else {
        let n = capped_head_run(s);
        lemma_head_run_le_len(s, s[0]);
        lemma_head_run_prefix(s, s[0]);
        let pair = seq![n as u8, s[0]];
        let rest = rle_encode(s.skip(n as int));
        assert(rle_encode(s) == pair + rest);
        lemma_decode_append(pair, rest);
        assert(pair.skip(2) =~= Seq::<u8>::empty());
        assert(rle_decode(pair.skip(2)) =~= Seq::<u8>::empty());
        assert(rle_decode(pair) =~= Seq::new(n, |i: int| s[0]));
        lemma_rle_round_trip(s.skip(n as int));
        assert(n >= 1);
        assert(rle_decode(rle_encode(s)) =~= s);
    }
}

/// Scalar run-length encoder. Writes pairs `(count, value)` into `dst` and
/// returns the number of bytes written; bytes of `dst` past the result are
/// left untouched.
pub fn rle_compress(src: &[u8], dst: &mut [u8]) -> (r: usize)
    requires
        old(dst).len() >= 2 * src.len(),
    ensures
        r <= 2 * src.len(),
        r % 2 == 0,
        final(dst)@.take(r as int) == rle_encode(src@),
        final(dst)@.skip(r as int) == old(dst)@.skip(r as int),
        final(dst)@.len() == old(dst)@.len(),
{
    let len = src.len();
    let mut src_idx: usize = 0;
    let mut dst_idx: usize = 0;

    proof {
        assert(dst@.take(0) =~= Seq::<u8>::empty());
        assert(src@.skip(0) =~= src@);
        assert(Seq::<u8>::empty() + rle_encode(src@) =~= rle_encode(src@));
    }

    while src_idx < len
        invariant
            src_idx <= len,
            len == src@.len(),
            dst_idx <= 2 * src_idx,
            dst@.len() == old(dst)@.len(),
            old(dst).len() >= 2 * len,
            dst_idx % 2 == 0,
            rle_encode(src@) == dst@.take(dst_idx as int) + rle_encode(src@.skip(src_idx as int)),
            dst@.skip(dst_idx as int) == old(dst)@.skip(dst_idx as int),
        decreases len - src_idx,
    {
        let run_start = src_idx;
        let color = src[src_idx];
        let mut count: usize = 1;
        src_idx = src_idx + 1;

        while src_idx < len && src[src_idx] == color && count < 255
            invariant
                len == src@.len(),
                run_start < src_idx <= len,
                1 <= count <= 255,
                src_idx == run_start + count,
                color == src@[run_start as int],
                forall|j: int| run_start <= j < src_idx ==> src@[j] == color,
            decreases len - src_idx,
        {
            count = count + 1;
            src_idx = src_idx + 1;
        }

        proof {
            let tail = src@.skip(run_start as int);
            assert forall|i: int| 0 <= i < count implies tail[i] == color by {
                assert(tail[i] == src@[run_start + i]);
            }
            if count < 255 {
                if src_idx < len {
                    assert(tail[count as int] == src@[src_idx as int]);
                }
                lemma_head_run_exact(tail, color, count as nat);
            } else {
                lemma_head_run_at_least(tail, color, 255);
            }
            assert(capped_head_run(tail) == count);
            lemma_head_run_le_len(tail, color);
            assert(tail.skip(count as int) =~= src@.skip(src_idx as int));
            assert(rle_encode(tail) == seq![count as u8, color] + rle_encode(
                src@.skip(src_idx as int),
            ));
        }

        let ghost pre = dst@;
        dst[dst_idx] = count as u8;
        dst[dst_idx + 1] = color;

        proof {
            assert(dst@.take(dst_idx + 2) =~= pre.take(dst_idx as int) + seq![
                count as u8,
                color,
            ]);
            assert(rle_encode(src@) == dst@.take(dst_idx + 2) + rle_encode(
                src@.skip(src_idx as int),
            )) by {
                assert((pre.take(dst_idx as int) + seq![count as u8, color]) + rle_encode(
                    src@.skip(src_idx as int),
                ) =~= pre.take(dst_idx as int) + (seq![count as u8, color] + rle_encode(
                    src@.skip(src_idx as int),
                )));
            }
            assert forall|j: int| dst_idx + 2 <= j < dst@.len() implies dst@[j] == old(
                dst,
            )@[j] by {
                assert(pre.skip(dst_idx as int)[j - dst_idx] == old(dst)@.skip(
                    dst_idx as int,
                )[j - dst_idx]);
            }
            assert(dst@.skip(dst_idx + 2) =~= old(dst)@.skip(dst_idx + 2));
        }

        dst_idx = dst_idx + 2;
    }

    proof {
        assert(src@.skip(src_idx as int) =~= Seq::<u8>::empty());
        assert(rle_encode(src@) == dst@.take(dst_idx as int) + rle_encode(Seq::<u8>::empty()));
        assert(dst@.take(dst_idx as int) + Seq::<u8>::empty() =~= dst@.take(dst_idx as int));
    }
    dst_idx
}

/// Run-length decoder, bounded by the destination capacity. Returns the
/// number of bytes written; bytes of `dst` past the result are untouched.
pub fn rle_decompress(src: &[u8], dst: &mut [u8]) -> (r: usize)
    ensures
        r == if rle_decode(src@).len() <= old(dst)@.len() {
            rle_decode(src@).len()
        } else {
            old(dst)@.len()
        },
        final(dst)@.take(r as int) == rle_decode(src@).take(r as int),
        final(dst)@.skip(r as int) == old(dst)@.skip(r as int),
        final(dst)@.len() == old(dst)@.len(),
{
    let len = src.len();
    let dst_len = dst.len();
    let mut src_idx: usize = 0;
    let mut dst_idx: usize = 0;

    while src_idx + 1 < len
        invariant
            len == src@.len(),
            dst_len == dst@.len() == old(dst)@.len(),
            src_idx <= len,
            src_idx % 2 == 0,
            dst_idx <= dst_len,
            dst_idx == if rle_decode(src@.take(src_idx as int)).len() <= dst_len {
                rle_decode(src@.take(src_idx as int)).len() as int
            } else {
                dst_len as int
            },
            dst@.take(dst_idx as int) == rle_decode(src@.take(src_idx as int)).take(
                dst_idx as int,
            ),
            dst@.skip(dst_idx as int) == old(dst)@.skip(dst_idx as int),
        decreases len - src_idx,
    {
        let count = src[src_idx];
        let color = src[src_idx + 1];
        let ghost prefix = src@.take(src_idx as int);
        let ghost decoded = rle_decode(prefix);
        src_idx = src_idx + 2;

        proof {
            assert(src@.take(src_idx as int) =~= prefix + seq![count, color]);
            lemma_decode_append(prefix, seq![count, color]);
            let pair = seq![count, color];
            assert(pair.skip(2) =~= Seq::<u8>::empty());
            assert(rle_decode(pair.skip(2)) =~= Seq::<u8>::empty());
            assert(rle_decode(pair) =~= Seq::new(count as nat, |i: int| color));
            assert((decoded + Seq::new(0 as nat, |i: int| color)).take(dst_idx as int) =~= decoded
                .take(dst_idx as int));
        }

        let mut written: usize = 0;
        while written < count as usize && dst_idx < dst_len
            invariant
                written <= count,
                dst_len == dst@.len() == old(dst)@.len(),
                dst_idx <= dst_len,
                dst_idx == if decoded.len() + written <= dst_len {
                    decoded.len() + written as int
                } else {
                    dst_len as int
                },
                written > 0 ==> decoded.len() + written <= dst_len,
                dst@.take(dst_idx as int) == (decoded + Seq::new(written as nat, |i: int| color))
                    .take(dst_idx as int),
                dst@.skip(dst_idx as int) == old(dst)@.skip(dst_idx as int),
            decreases count - written,
        {
            let ghost pre = dst@;
            dst[dst_idx] = color;
            proof {
                assert(dst@.take(dst_idx + 1) =~= pre.take(dst_idx as int) + seq![color]);
                assert((decoded + Seq::new((written + 1) as nat, |i: int| color)).take(
                    dst_idx + 1,
                ) =~= (decoded + Seq::new(written as nat, |i: int| color)).take(dst_idx as int)
                    + seq![color]);
                assert forall|j: int| dst_idx + 1 <= j < dst@.len() implies dst@[j] == old(
                    dst,
                )@[j] by {
                    assert(pre.skip(dst_idx as int)[j - dst_idx] == old(dst)@.skip(
                        dst_idx as int,
                    )[j - dst_idx]);
                }
                assert(dst@.skip(dst_idx + 1) =~= old(dst)@.skip(dst_idx + 1));
            }
            dst_idx = dst_idx + 1;
            written = written + 1;
        }

        proof {
            let full = decoded + Seq::new(count as nat, |i: int| color);
            assert(full == rle_decode(src@.take(src_idx as int)));
            if written < count {
                assert(dst_idx == dst_len);
                assert(full.take(dst_idx as int) =~= (decoded + Seq::new(
                    written as nat,
                    |i: int| color,
                )).take(dst_idx as int));
            } else {
                assert(full =~= decoded + Seq::new(written as nat, |i: int| color));
            }
        }
    }

    proof {
        if src_idx < len {
            assert(src@.take(len as int) =~= src@.take(src_idx as int) + seq![
                src@[src_idx as int],
            ]);
            lemma_decode_append(src@.take(src_idx as int), seq![src@[src_idx as int]]);
            assert(rle_decode(seq![src@[src_idx as int]]) =~= Seq::<u8>::empty());
            assert(rle_decode(src@.take(len as int)) =~= rle_decode(src@.take(src_idx as int)));
        }
        assert(src@.take(len as int) =~= src@);
    }
    dst_idx
}

} // verus!
