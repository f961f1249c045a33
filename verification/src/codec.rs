//! Little-endian integer fields inside byte buffers.
//!
//! All on-disk structures of the engine (record headers, checkpoint
//! bodies, the control file) are packed little-endian blobs; these helpers
//! read and write one fixed-width field at a given offset.
use vstd::bytes::{
    spec_u32_from_le_bytes, spec_u32_to_le_bytes, spec_u64_from_le_bytes, spec_u64_to_le_bytes,
    u32_from_le_bytes, u32_to_le_bytes, u64_from_le_bytes, u64_to_le_bytes,
};
use vstd::pervasive::VecAdditionalExecFns;
use vstd::prelude::*;
use vstd::slice::slice_subrange;

verus! {

/// `d` with the four bytes at `off` replaced by the little-endian form of
/// `v`.
pub open spec fn spec_put_u32(d: Seq<u8>, off: int, v: u32) -> Seq<u8> {
    d.take(off) + spec_u32_to_le_bytes(v) + d.skip(off + 4)
}

/// `d` with the eight bytes at `off` replaced by the little-endian form of
/// `v`.
pub open spec fn spec_put_u64(d: Seq<u8>, off: int, v: u64) -> Seq<u8> {
    d.take(off) + spec_u64_to_le_bytes(v) + d.skip(off + 8)
}

/// The u32 stored little-endian at `off` in `d`.
pub open spec fn spec_get_u32(d: Seq<u8>, off: int) -> u32 {
    spec_u32_from_le_bytes(d.subrange(off, off + 4))
}

/// The u64 stored little-endian at `off` in `d`.
pub open spec fn spec_get_u64(d: Seq<u8>, off: int) -> u64 {
    spec_u64_from_le_bytes(d.subrange(off, off + 8))
}

pub fn put_u32(d: &mut Vec<u8>, off: usize, v: u32)
    requires
        off + 4 <= old(d).len(),
    ensures
        final(d)@ == spec_put_u32(old(d)@, off as int, v),
        final(d).len() == old(d).len(),
{
    let b = u32_to_le_bytes(v);
    d.set(off, b[0]);
    d.set(off + 1, b[1]);
    d.set(off + 2, b[2]);
    d.set(off + 3, b[3]);
    proof {
        assert(final(d)@ =~= spec_put_u32(old(d)@, off as int, v));
    }
}

pub fn put_u64(d: &mut Vec<u8>, off: usize, v: u64)
    requires
        off + 8 <= old(d).len(),
    ensures
        final(d)@ == spec_put_u64(old(d)@, off as int, v),
        final(d).len() == old(d).len(),
{
    let b = u64_to_le_bytes(v);
    let mut i: usize = 0;
    while i < 8
        invariant
            i <= 8,
            off + 8 <= old(d).len(),
            b@.len() == 8,
            b@ == spec_u64_to_le_bytes(v),
            d.len() == old(d).len(),
            forall|j: int| 0 <= j < off ==> d@[j] == old(d)@[j],
            forall|j: int| 0 <= j < i ==> d@[off + j] == b@[j],
            forall|j: int| off + i <= j < d.len() ==> d@[j] == old(d)@[j],
        decreases 8 - i,
    {
        d.set(off + i, b[i]);
        i = i + 1;
    }
    proof {
        assert(final(d)@ =~= spec_put_u64(old(d)@, off as int, v));
    }
}

pub fn get_u32(d: &[u8], off: usize) -> (r: u32)
    requires
        off + 4 <= d.len(),
    ensures
        r == spec_get_u32(d@, off as int),
{
    let s = slice_subrange(d, off, off + 4);
    u32_from_le_bytes(s)
}

pub fn get_u64(d: &[u8], off: usize) -> (r: u64)
    requires
        off + 8 <= d.len(),
    ensures
        r == spec_get_u64(d@, off as int),
{
    let s = slice_subrange(d, off, off + 8);
    u64_from_le_bytes(s)
}

/// Appends the little-endian form of `v` to `d`.
pub fn push_u32(d: &mut Vec<u8>, v: u32)
    ensures
        final(d)@ == old(d)@ + spec_u32_to_le_bytes(v),
{
    let b = u32_to_le_bytes(v);
    d.push(b[0]);
    d.push(b[1]);
    d.push(b[2]);
    d.push(b[3]);
    proof {
        assert(final(d)@ =~= old(d)@ + spec_u32_to_le_bytes(v));
    }
}

/// Appends the little-endian form of `v` to `d`.
pub fn push_u64(d: &mut Vec<u8>, v: u64)
    ensures
        final(d)@ == old(d)@ + spec_u64_to_le_bytes(v),
{
    let b = u64_to_le_bytes(v);
    let mut i: usize = 0;
    while i < 8
        invariant
            i <= 8,
            b@.len() == 8,
            b@ == spec_u64_to_le_bytes(v),
            d@ == old(d)@ + b@.take(i as int),
        decreases 8 - i,
    {
        d.push(b[i]);
        proof {
            assert(old(d)@ + b@.take(i + 1) =~= (old(d)@ + b@.take(i as int)).push(b@[i as int]));
        }
        i = i + 1;
    }
    proof {
        assert(b@.take(8) =~= b@);
    }
}

} // verus!
