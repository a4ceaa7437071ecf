//! Byte-level encoding primitives and the content-addressing digest.
//!
//! All payloads that cross the service boundary are length-checked byte
//! strings in a fixed little-endian format; identifiers are 64-bit
//! content-addressed digests computed by folding a mixing step over the
//! addressed fields.

use vstd::prelude::*;

verus! {

/// The little-endian byte string of a 64-bit word.
pub open spec fn u64_le(x: u64) -> Seq<u8> {
    seq![
        (x & 0xff) as u8,
        ((x >> 8) & 0xff) as u8,
        ((x >> 16) & 0xff) as u8,
        ((x >> 24) & 0xff) as u8,
        ((x >> 32) & 0xff) as u8,
        ((x >> 40) & 0xff) as u8,
        ((x >> 48) & 0xff) as u8,
        ((x >> 56) & 0xff) as u8,
    ]
}

/// The 64-bit word read from the first eight bytes of `b`, little endian.
pub open spec fn le_u64(b: Seq<u8>) -> u64
    recommends
        b.len() >= 8,
{
    ((b[0] as u64) | ((b[1] as u64) << 8) | ((b[2] as u64) << 16) | ((b[3] as u64) << 24)
        | ((b[4] as u64) << 32) | ((b[5] as u64) << 40) | ((b[6] as u64) << 48) | ((b[7] as u64)
        << 56)) as u64
}

/// Reading back the little-endian bytes of a word yields the word.
pub proof fn lemma_le_u64_of_u64_le(x: u64)
    ensures
        le_u64(u64_le(x)) == x,
{
    assert(((x & 0xff) as u8 as u64) | (((x >> 8) & 0xff) as u8 as u64) << 8 | (((x >> 16)
        & 0xff) as u8 as u64) << 16 | (((x >> 24) & 0xff) as u8 as u64) << 24 | (((x >> 32)
        & 0xff) as u8 as u64) << 32 | (((x >> 40) & 0xff) as u8 as u64) << 40 | (((x >> 48)
        & 0xff) as u8 as u64) << 48 | (((x >> 56) & 0xff) as u8 as u64) << 56 == x)
        by (bit_vector);
}

/// Appends the little-endian bytes of `x` to `out`.
pub fn push_u64_le(out: &mut Vec<u8>, x: u64)
    ensures
        final(out)@ == old(out)@ + u64_le(x),
{
    out.push((x & 0xff) as u8);
    out.push(((x >> 8) & 0xff) as u8);
    out.push(((x >> 16) & 0xff) as u8);
    out.push(((x >> 24) & 0xff) as u8);
    out.push(((x >> 32) & 0xff) as u8);
    out.push(((x >> 40) & 0xff) as u8);
    out.push(((x >> 48) & 0xff) as u8);
    out.push(((x >> 56) & 0xff) as u8);
    assert(out@ =~= old(out)@ + u64_le(x));
}

/// Reads the 64-bit word stored little endian at `off`.
pub fn read_u64_le(b: &Vec<u8>, off: usize) -> (x: u64)
    requires
        off + 8 <= b@.len(),
        off + 8 <= usize::MAX,
    ensures
        x == le_u64(b@.subrange(off as int, off as int + 8)),
{
    let x: u64 =(b[off] as u64) | ((b[off + 1] as u64) << 8u64) | ((b[off + 2] as u64) << 16u64)
        | ((b[off + 3] as u64) << 24u64) | ((b[off + 4] as u64) << 32u64) | ((b[off + 5] as u64)
        << 40u64) | ((b[off + 6] as u64) << 48u64) | ((b[off + 7] as u64) << 56u64);
    x
}

/// Returns a fresh byte vector with the same contents as `b`.
pub fn copy_bytes(b: &Vec<u8>) -> (r: Vec<u8>)
    ensures
        r@ == b@,
{
    let mut r: Vec<u8> = Vec::new();
    let mut i: usize = 0;
    proof {
        assert(r@ =~= b@.take(0));
    }
    while i < b.len()
        invariant
            i <= b@.len(),
            r@ == b@.take(i as int),
        decreases b@.len() - i,
    {
        r.push(b[i]);
        proof {
            assert(r@ =~= b@.take(i as int + 1));
        }
        i = i + 1;
    }
    proof {
        assert(b@.take(b@.len() as int) =~= b@);
    }
    r
}

/// Appends every byte of `b` to `out`.
pub fn append_bytes(out: &mut Vec<u8>, b: &Vec<u8>)
    ensures
        final(out)@ == old(out)@ + b@,
{
    let mut i: usize = 0;
    proof {
        assert(out@ =~= old(out)@ + b@.take(0));
    }
    while i < b.len()
        invariant
            i <= b@.len(),
            out@ == old(out)@ + b@.take(i as int),
        decreases b@.len() - i,
    {
        out.push(b[i]);
        proof {
            assert(out@ =~= old(out)@ + b@.take(i as int + 1));
        }
        i = i + 1;
    }
    proof {
        assert(old(out)@ + b@.take(b@.len() as int) =~= old(out)@ + b@);
    }
}

/// One step of the content-addressing digest: fold `x` into state `h`.
pub open spec fn mix64(h: u64, x: u64) -> u64 {
    (((h ^ x) as u128) * 0x100000001b3u128) as u64
}

/// The digest state after folding every word of `xs` into `h`.
pub open spec fn fold_mix64(h: u64, xs: Seq<u64>) -> u64
    decreases xs.len(),
{
    if xs.len() == 0 {
        h
    } else {
        fold_mix64(mix64(h, xs[0]), xs.drop_first())
    }
}

/// Executable counterpart of [`mix64`].
pub fn mix64_exec(h: u64, x: u64) -> (r: u64)
    ensures
        r == mix64(h, x),
{
    (((h ^ x) as u128) * 0x100000001b3u128) as u64
}

/// Folds every word of `xs` into the digest state `h`.
pub fn fold_mix64_exec(h: u64, xs: &Vec<u64>) -> (r: u64)
    ensures
        r == fold_mix64(h, xs@),
{
    let mut acc: u64 = h;
    let mut i: usize = 0;
    proof {
        assert(xs@.skip(0) =~= xs@);
    }
    while i < xs.len()
        invariant
            i <= xs@.len(),
            fold_mix64(h, xs@) == fold_mix64(acc, xs@.skip(i as int)),
        decreases xs@.len() - i,
    {
        proof {
            assert(xs@.skip(i as int).len() > 0);
            assert(xs@.skip(i as int)[0] == xs@[i as int]);
            assert(xs@.skip(i as int).drop_first() =~= xs@.skip(i as int + 1));
        }
        acc = mix64_exec(acc, xs[i]);
        i = i + 1;
    }
    proof {
        assert(xs@.skip(xs@.len() as int) =~= Seq::<u64>::empty());
    }
    acc
}

} // verus!
