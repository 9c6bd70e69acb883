//! Byte-level wire formats: integer fields and the diff stream.
//!
//! Pixel coordinates travel little-endian (frozen from the bundled client's
//! native byte order); socket addresses in receive framing are big-endian as
//! the kernel stores them. A diff broadcast is a stream of 5-byte records
//! `(index: u32 little-endian, colour: u8)`, one per changed pixel, in
//! increasing index order.

use vstd::prelude::*;
use vstd::pervasive::VecAdditionalExecFns;

verus! {

/// A 16-bit value from two little-endian bytes.
pub open spec fn le16_val(b0: u8, b1: u8) -> u16 {
    (b0 as u16) | ((b1 as u16) << 8)
}

/// A 32-bit value from four little-endian bytes.
pub open spec fn le32_val(b0: u8, b1: u8, b2: u8, b3: u8) -> u32 {
    (b0 as u32) | ((b1 as u32) << 8) | ((b2 as u32) << 16) | ((b3 as u32) << 24)
}

/// A 64-bit value from eight little-endian bytes.
pub open spec fn le64_val(b0: u8, b1: u8, b2: u8, b3: u8, b4: u8, b5: u8, b6: u8, b7: u8) -> u64 {
    (b0 as u64) | ((b1 as u64) << 8) | ((b2 as u64) << 16) | ((b3 as u64) << 24) | ((b4 as u64)
        << 32) | ((b5 as u64) << 40) | ((b6 as u64) << 48) | ((b7 as u64) << 56)
}

/// A 32-bit value from four big-endian bytes (network order).
pub open spec fn be32_val(b0: u8, b1: u8, b2: u8, b3: u8) -> u32 {
    ((b0 as u32) << 24) | ((b1 as u32) << 16) | ((b2 as u32) << 8) | (b3 as u32)
}

/// A 16-bit value from two big-endian bytes (network order).
pub open spec fn be16_val(b0: u8, b1: u8) -> u16 {
    ((b0 as u16) << 8) | (b1 as u16)
}

/// The four little-endian bytes of a 32-bit value.
pub open spec fn le32_bytes(n: u32) -> Seq<u8> {
    seq![(n & 0xFF) as u8, ((n >> 8) & 0xFF) as u8, ((n >> 16) & 0xFF) as u8, ((n >> 24)
        & 0xFF) as u8]
}

pub proof fn lemma_le32_round_trip(n: u32)
    ensures
        le32_val(
            (n & 0xFF) as u8,
            ((n >> 8) & 0xFF) as u8,
            ((n >> 16) & 0xFF) as u8,
            ((n >> 24) & 0xFF) as u8,
        ) == n,
{
    assert(((n & 0xFF) as u8 as u32) | ((((n >> 8) & 0xFF) as u8 as u32) << 8) | ((((n >> 16)
        & 0xFF) as u8 as u32) << 16) | ((((n >> 24) & 0xFF) as u8 as u32) << 24) == n)
        by (bit_vector);
}

/// The diff stream between two equal-length canvases, from index `i` on:
/// a 5-byte record for every position where they differ.
pub open spec fn diff_bytes(a: Seq<u8>, b: Seq<u8>, i: int) -> Seq<u8>
    decreases b.len() - i when i >= 0
{
    if i < 0 || i >= b.len() {
        Seq::empty()
    } else if a[i] != b[i] {
        le32_bytes(i as u32) + seq![b[i]] + diff_bytes(a, b, i + 1)
    } else {
        diff_bytes(a, b, i + 1)
    }
}

/// The canvas value after applying a diff stream: each record stores its
/// colour at its index; records beyond the canvas are ignored, as is a
/// trailing fragment shorter than one record.
pub open spec fn apply_diff(c: Seq<u8>, d: Seq<u8>) -> Seq<u8>
    decreases d.len(),
{
    if d.len() < 5 {
        c
    } else {
        let idx = le32_val(d[0], d[1], d[2], d[3]);
        let next = if idx < c.len() {
            c.update(idx as int, d[4])
        } else {
            c
        };
        apply_diff(next, d.skip(5))
    }
}

proof fn lemma_diff_merge(a: Seq<u8>, b: Seq<u8>, c: Seq<u8>, i: int)
    requires
        a.len() == b.len(),
        c.len() == b.len(),
        b.len() <= 0x1_0000_0000,
        0 <= i,
        forall|j: int| i <= j < b.len() ==> c[j] == a[j],
    ensures
        apply_diff(c, diff_bytes(a, b, i)) == Seq::new(
            b.len(),
            |j: int|
                if j < i {
                    c[j]
                } else {
                    b[j]
                },
        ),
    decreases b.len() - i,
{
    let merged = Seq::new(
        b.len(),
        |j: int|
            if j < i {
                c[j]
            } else {
                b[j]
            },
    );
    if i >= b.len() {
        assert(diff_bytes(a, b, i) == Seq::<u8>::empty());
        assert(apply_diff(c, Seq::<u8>::empty()) == c);
        assert(c =~= merged);
    } else if a[i] == b[i] {
        lemma_diff_merge(a, b, c, i + 1);
        assert(Seq::new(
            b.len(),
            |j: int|
                if j < i + 1 {
                    c[j]
                } else {
                    b[j]
                },
        ) =~= merged);
    } else {
        let rec = le32_bytes(i as u32) + seq![b[i]];
        let d = rec + diff_bytes(a, b, i + 1);
        assert(diff_bytes(a, b, i) == d);
        assert(d.len() >= 5);
        lemma_le32_round_trip(i as u32);
        assert(le32_val(d[0], d[1], d[2], d[3]) == i as u32);
        assert((i as u32) < c.len());
        let c2 = c.update(i, b[i]);
        assert(d.skip(5) =~= diff_bytes(a, b, i + 1));
        assert(apply_diff(c, d) == apply_diff(c2, diff_bytes(a, b, i + 1)));
        lemma_diff_merge(a, b, c2, i + 1);
        assert(Seq::new(
            b.len(),
            |j: int|
                if j < i + 1 {
                    c2[j]
                } else {
                    b[j]
                },
        ) =~= merged);
    }
}

/// Diff restoration law: applying the diff stream between two canvases to
/// the first one yields exactly the second.
pub proof fn lemma_diff_restores(a: Seq<u8>, b: Seq<u8>)
    requires
        a.len() == b.len(),
        b.len() <= 0x1_0000_0000,
    ensures
        apply_diff(a, diff_bytes(a, b, 0)) == b,
{
    lemma_diff_merge(a, b, a, 0);
    assert(Seq::new(
        b.len(),
        |j: int|
            if j < 0 {
                a[j]
            } else {
                b[j]
            },
    ) =~= b);
}

/// The canvas value after applying a sequence of diff streams in order.
pub open spec fn apply_diffs(c: Seq<u8>, ds: Seq<Seq<u8>>) -> Seq<u8>
    decreases ds.len(),
{
    if ds.len() == 0 {
        c
    } else {
        apply_diffs(apply_diff(c, ds[0]), ds.skip(1))
    }
}

/// The diff streams between consecutive canvas versions.
pub open spec fn diff_stream(vs: Seq<Seq<u8>>) -> Seq<Seq<u8>> {
    Seq::new((vs.len() - 1) as nat, |i: int| diff_bytes(vs[i], vs[i + 1], 0))
}

/// Broadcast reconstruction law: a client that starts from one published
/// canvas and applies the diff stream of every later publication, in order,
/// ends with a canvas identical to the most recent publication.
pub proof fn lemma_diff_stream_restores(vs: Seq<Seq<u8>>)
    requires
        vs.len() > 0,
        forall|i: int| 0 <= i < vs.len() ==> (#[trigger] vs[i]).len() == vs[0].len(),
        vs[0].len() <= 0x1_0000_0000,
    ensures
        apply_diffs(vs[0], diff_stream(vs)) == vs.last(),
    decreases vs.len(),
{
    if vs.len() == 1 {
        assert(diff_stream(vs) =~= Seq::<Seq<u8>>::empty());
        assert(apply_diffs(vs[0], Seq::<Seq<u8>>::empty()) == vs[0]);
    } else {
        let ds = diff_stream(vs);
        assert(ds[0] == diff_bytes(vs[0], vs[1], 0));
        lemma_diff_restores(vs[0], vs[1]);
        assert(apply_diff(vs[0], ds[0]) == vs[1]);
        let rest = vs.skip(1);
        assert forall|i: int| 0 <= i < rest.len() implies (#[trigger] rest[i]).len()
            == rest[0].len() by {
            assert(rest[i] == vs[i + 1]);
            assert(rest[0] == vs[1]);
        }
        lemma_diff_stream_restores(rest);
        assert(ds.skip(1) =~= diff_stream(rest)) by {
            assert forall|i: int| 0 <= i < ds.skip(1).len() implies ds.skip(1)[i] == diff_stream(
                rest,
            )[i] by {
                assert(ds.skip(1)[i] == ds[i + 1]);
                assert(ds[i + 1] == diff_bytes(vs[i + 1], vs[i + 2], 0));
                assert(rest[i] == vs[i + 1]);
                assert(rest[i + 1] == vs[i + 2]);
            }
        }
        assert(apply_diffs(vs[0], ds) == apply_diffs(vs[1], ds.skip(1)));
        assert(rest[0] == vs[1]);
        assert(rest.last() == vs.last());
    }
}

/// Computes the diff stream between the previously sent canvas and a new
/// snapshot, updating the previously-sent copy in place to match the new
/// snapshot.
pub fn compute_diff(last: &mut Vec<u8>, new: &[u8]) -> (d: Vec<u8>)
    requires
        old(last)@.len() == new@.len(),
        new@.len() <= 0x1_0000_0000,
    ensures
        d@ == diff_bytes(old(last)@, new@, 0),
        final(last)@ == new@,
{
    let len = new.len();
    let mut d: Vec<u8> = Vec::new();
    let mut i: usize = 0;
    proof {
        assert(Seq::<u8>::empty() + diff_bytes(old(last)@, new@, 0) =~= diff_bytes(
            old(last)@,
            new@,
            0,
        ));
    }
    while i < len
        invariant
            i <= len,
            len == new@.len(),
            last@.len() == len,
            len <= 0x1_0000_0000,
            forall|j: int| 0 <= j < i ==> last@[j] == new@[j],
            forall|j: int| i <= j < len ==> last@[j] == old(last)@[j],
            diff_bytes(old(last)@, new@, 0) == d@ + diff_bytes(old(last)@, new@, i as int),
        decreases len - i,
    {
        let ghost d_before = d@;
        let n = new[i];
        if last[i] != n {
            let idx = i as u32;
            d.push((idx & 0xFF) as u8);
            d.push(((idx >> 8) & 0xFF) as u8);
            d.push(((idx >> 16) & 0xFF) as u8);
            d.push(((idx >> 24) & 0xFF) as u8);
            d.push(n);
            last.set(i, n);
            proof {
                assert(d@ =~= d_before + le32_bytes(i as u32) + seq![new@[i as int]]);
                assert(diff_bytes(old(last)@, new@, i as int) == le32_bytes(i as u32) + seq![
                    new@[i as int],
                ] + diff_bytes(old(last)@, new@, i + 1));
                assert(d@ + diff_bytes(old(last)@, new@, i + 1) =~= d_before + diff_bytes(
                    old(last)@,
                    new@,
                    i as int,
                ));
            }
        } else {
            proof {
                assert(diff_bytes(old(last)@, new@, i as int) == diff_bytes(
                    old(last)@,
                    new@,
                    i + 1,
                ));
            }
        }
        i = i + 1;
    }
    proof {
        assert(diff_bytes(old(last)@, new@, len as int) == Seq::<u8>::empty());
        assert(d@ + Seq::<u8>::empty() =~= d@);
        assert(last@ =~= new@);
    }
    d
}

} // verus!
