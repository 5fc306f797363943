//! Verified byte-level helpers over the ledger image.
//!
//! Every multi-byte integer in the image is little-endian; the `u32`
//! conversions come from `vstd::bytes`.

use vstd::bytes::{spec_u32_from_le_bytes, spec_u32_to_le_bytes, u32_from_le_bytes, u32_to_le_bytes};
use vstd::pervasive::VecAdditionalExecFns;
use vstd::prelude::*;
use vstd::slice::slice_subrange;

verus! {

/// The `u32` stored little-endian at `off` in `b`.
pub open spec fn read_u32(b: Seq<u8>, off: int) -> u32 {
    spec_u32_from_le_bytes(b.subrange(off, off + 4))
}

/// Appends all of `src` to `dst`.
pub(crate) fn push_bytes(dst: &mut Vec<u8>, src: &Vec<u8>)
    ensures
        final(dst)@ == old(dst)@ + src@,
{
    let mut i: usize = 0;
    while i < src.len()
        invariant
            i <= src@.len(),
            dst@ == old(dst)@ + src@.subrange(0, i as int),
        decreases src@.len() - i,
    {
        dst.push(src[i]);
        proof {
            assert(dst@ == old(dst)@ + src@.subrange(0, i + 1)) by {
                assert(src@.subrange(0, i + 1) == src@.subrange(0, i as int).push(src@[i as int]));
            }
        }
        i = i + 1;
    }
    proof {
        assert(src@.subrange(0, src@.len() as int) == src@);
    }
}

/// Appends `n` zero bytes to `dst`.
pub(crate) fn push_zeros(dst: &mut Vec<u8>, n: usize)
    ensures
        final(dst)@.len() == old(dst)@.len() + n,
        forall|j: int|
            0 <= j < final(dst)@.len() ==> final(dst)@[j] == (if j < old(dst)@.len() {
                old(dst)@[j]
            } else {
                0u8
            }),
{
    let mut i: usize = 0;
    while i < n
        invariant
            i <= n,
            dst@.len() == old(dst)@.len() + i,
            forall|j: int|
                0 <= j < dst@.len() ==> dst@[j] == (if j < old(dst)@.len() {
                    old(dst)@[j]
                } else {
                    0u8
                }),
        decreases n - i,
    {
        dst.push(0);
        i = i + 1;
    }
}

/// Overwrites `dst[off .. off + src.len()]` with `src`, leaving the rest alone.
pub(crate) fn write_bytes(dst: &mut Vec<u8>, off: usize, src: &Vec<u8>)
    requires
        off + src@.len() <= old(dst)@.len(),
    ensures
        final(dst)@.len() == old(dst)@.len(),
        forall|j: int|
            0 <= j < final(dst)@.len() ==> final(dst)@[j] == (if off <= j < off + src@.len() {
                src@[j - off]
            } else {
                old(dst)@[j]
            }),
{
    let dst_len = dst.len();
    let mut i: usize = 0;
    while i < src.len()
        invariant
            i <= src@.len(),
            off + src@.len() <= dst@.len(),
            dst@.len() == dst_len,
            dst@.len() == old(dst)@.len(),
            forall|j: int|
                0 <= j < dst@.len() ==> dst@[j] == (if off <= j < off + i {
                    src@[j - off]
                } else {
                    old(dst)@[j]
                }),
        decreases src@.len() - i,
    {
        dst.set(off + i, src[i]);
        i = i + 1;
    }
}

/// Copies `dst[off .. off + len]` out into a fresh vector.
pub(crate) fn read_bytes(src: &Vec<u8>, off: usize, len: usize) -> (r: Vec<u8>)
    requires
        off + len <= src@.len(),
    ensures
        r@ == src@.subrange(off as int, off as int + len as int),
{
    let src_len = src.len();
    let mut v: Vec<u8> = Vec::new();
    let mut i: usize = 0;
    while i < len
        invariant
            i <= len,
            off + len <= src_len,
            src@.len() == src_len,
            v@ == src@.subrange(off as int, off as int + i as int),
        decreases len - i,
    {
        v.push(src[off + i]);
        proof {
            assert(src@.subrange(off as int, off as int + i + 1) == src@.subrange(
                off as int,
                off as int + i as int,
            ).push(src@[off + i]));
        }
        i = i + 1;
    }
    v
}

/// Reads the little-endian `u32` at `off` in `src`.
pub(crate) fn read_u32_at(src: &Vec<u8>, off: usize) -> (r: u32)
    requires
        off + 4 <= src@.len(),
    ensures
        r == read_u32(src@, off as int),
{
    let src_len = src.len();
    u32_from_le_bytes(slice_subrange(src.as_slice(), off, off + 4))
}

/// Writes `v` little-endian into `dst[off .. off + 4]`, leaving the rest alone.
pub(crate) fn write_u32_at(dst: &mut Vec<u8>, off: usize, v: u32)
    requires
        off + 4 <= old(dst)@.len(),
    ensures
        final(dst)@.len() == old(dst)@.len(),
        read_u32(final(dst)@, off as int) == v,
        final(dst)@.subrange(off as int, off as int + 4) == spec_u32_to_le_bytes(v),
        forall|j: int|
            0 <= j < final(dst)@.len() && !(off <= j < off + 4) ==> final(dst)@[j] == old(dst)@[j],
{
    proof {
        vstd::bytes::lemma_auto_spec_u32_to_from_le_bytes();
    }
    let b = u32_to_le_bytes(v);
    write_bytes(dst, off, &b);
    proof {
        assert(dst@.subrange(off as int, off as int + 4) =~= spec_u32_to_le_bytes(v));
    }
}

} // verus!
