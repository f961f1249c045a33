//! CRC-32C (Castagnoli) checksums, computed by the `crc32c` crate.
//!
//! The checksum itself is treated as an opaque function of the accumulator
//! and the bytes: contracts name its value and never restate the algorithm.
use vstd::prelude::*;

verus! {

/// The CRC-32C accumulator obtained by folding the bytes `d` into the
/// accumulator `crc`.
pub uninterp spec fn crc32c_extend(crc: u32, d: Seq<u8>) -> u32;

/// The CRC-32C of `d` computed from a fresh (zero) accumulator.
pub open spec fn crc32c_of(d: Seq<u8>) -> u32 {
    crc32c_extend(0, d)
}

/// Relies on crc32c::crc32c_append: the result depends on the accumulator
/// and the bytes alone.
#[verifier::external_body]
pub fn crc32c_append(crc: u32, d: &[u8]) -> (r: u32)
    ensures
        r == crc32c_extend(crc, d@),
{
    crc32c::crc32c_append(crc, d)
}

/// Relies on crc32c::crc32c, which its crate defines as
/// `crc32c_append(0, data)`.
#[verifier::external_body]
pub fn crc32c(d: &[u8]) -> (r: u32)
    ensures
        r == crc32c_extend(0, d@),
{
    crc32c::crc32c(d)
}

} // verus!
