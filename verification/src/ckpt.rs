//! Checkpoint records and the control file.
//!
//! A checkpoint's body and the control file are packed little-endian
//! blobs; the control file carries a copy of the last checkpoint, version
//! gates and a CRC over everything before the CRC field. Reading and
//! writing the blob to disk is the caller's business; this module owns the
//! layout and its validation.
use crate::crc;
use crate::crc::crc32c_of;
use crate::codec;
use crate::codec::{spec_get_u32, spec_get_u64};
use crate::rec::RECHDRLEN;
use crate::{Lsn, Oid, TimeLineID, WalError, Xid};
use vstd::bytes::{
    lemma_auto_spec_u32_to_from_le_bytes, lemma_auto_spec_u64_to_from_le_bytes,
    spec_u32_to_le_bytes, spec_u64_to_le_bytes,
};
use vstd::prelude::*;
use vstd::slice::slice_subrange;

verus! {

/// Control-file format version.
pub const KB_CTL_VER: u32 = 20130203;

/// Catalog format version.
pub const KB_CAT_VER: u32 = 20181218;

/// Serialized length of a checkpoint body.
pub const CKPTLEN: usize = 36;

/// Serialized length of the control file.
pub const CTLLEN: usize = 64;

/// Offset of the control file's CRC field; the CRC covers everything
/// before it.
pub const CTL_CRC_OFF: usize = 60;

/// A checkpoint: where recovery must begin and the counters to resume
/// from. `time` is in whole seconds since the epoch.
#[derive(Copy, Clone, Debug, PartialEq, Eq, Structural)]
pub struct Ckpt {
    pub redo: Lsn,
    pub curtli: TimeLineID,
    pub prevtli: TimeLineID,
    pub nextxid: Xid,
    pub nextoid: Oid,
    pub time: u64,
}

/// The serialized checkpoint body.
pub open spec fn spec_ckpt_bytes(c: Ckpt) -> Seq<u8> {
    spec_u64_to_le_bytes(c.redo) + spec_u32_to_le_bytes(c.curtli) + spec_u32_to_le_bytes(
        c.prevtli,
    ) + spec_u64_to_le_bytes(c.nextxid) + spec_u32_to_le_bytes(c.nextoid) + spec_u64_to_le_bytes(
        c.time,
    )
}

/// The checkpoint encoded at the start of `d`.
pub open spec fn spec_ckpt_of(d: Seq<u8>) -> Ckpt {
    Ckpt {
        redo: spec_get_u64(d, 0),
        curtli: spec_get_u32(d, 8),
        prevtli: spec_get_u32(d, 12),
        nextxid: spec_get_u64(d, 16),
        nextoid: spec_get_u32(d, 24),
        time: spec_get_u64(d, 28),
    }
}

/// Appends the serialized form of `c` to `d`.
pub fn push_ckpt(d: &mut Vec<u8>, c: &Ckpt)
    ensures
        final(d)@ == old(d)@ + spec_ckpt_bytes(*c),
{
    codec::push_u64(d, c.redo);
    codec::push_u32(d, c.curtli);
    codec::push_u32(d, c.prevtli);
    codec::push_u64(d, c.nextxid);
    codec::push_u32(d, c.nextoid);
    codec::push_u64(d, c.time);
    proof {
        assert(final(d)@ =~= old(d)@ + spec_ckpt_bytes(*c));
    }
}

/// A fresh record buffer holding a checkpoint body behind the reserved
/// header space, ready for `finish_record`.
pub fn new_ckpt_rec(ckpt: &Ckpt) -> (r: Vec<u8>)
    ensures
        r@.len() == RECHDRLEN + CKPTLEN,
        r@.skip(RECHDRLEN as int) == spec_ckpt_bytes(*ckpt),
{
    let mut record: Vec<u8> = Vec::new();
    let mut i: usize = 0;
    while i < RECHDRLEN
        invariant
            i <= RECHDRLEN,
            record@.len() == i,
        decreases RECHDRLEN - i,
    {
        record.push(0);
        i = i + 1;
    }
    push_ckpt(&mut record, ckpt);
    proof {
        lemma_auto_spec_u32_to_from_le_bytes();
        lemma_auto_spec_u64_to_from_le_bytes();
        assert(record@.skip(RECHDRLEN as int) =~= spec_ckpt_bytes(*ckpt));
    }
    record
}

/// Decodes the checkpoint at the start of a record body.
pub fn get_ckpt(recdata: &[u8]) -> (r: Ckpt)
    requires
        recdata@.len() >= CKPTLEN,
    ensures
        r == spec_ckpt_of(recdata@),
{
    Ckpt {
        redo: codec::get_u64(recdata, 0),
        curtli: codec::get_u32(recdata, 8),
        prevtli: codec::get_u32(recdata, 12),
        nextxid: codec::get_u64(recdata, 16),
        nextoid: codec::get_u32(recdata, 24),
        time: codec::get_u64(recdata, 28),
    }
}

/// Round trip of the checkpoint body encoding.
pub proof fn lemma_ckpt_round_trip(c: Ckpt)
    ensures
        spec_ckpt_of(spec_ckpt_bytes(c)) == c,
{
    lemma_auto_spec_u32_to_from_le_bytes();
    lemma_auto_spec_u64_to_from_le_bytes();
    let d = spec_ckpt_bytes(c);
    assert(d.subrange(0, 8) =~= spec_u64_to_le_bytes(c.redo));
    assert(d.subrange(8, 12) =~= spec_u32_to_le_bytes(c.curtli));
    assert(d.subrange(12, 16) =~= spec_u32_to_le_bytes(c.prevtli));
    assert(d.subrange(16, 24) =~= spec_u64_to_le_bytes(c.nextxid));
    assert(d.subrange(24, 28) =~= spec_u32_to_le_bytes(c.nextoid));
    assert(d.subrange(28, 36) =~= spec_u64_to_le_bytes(c.time));
}

/// The control file: the last checkpoint's position, an inline copy of it,
/// and format versions, all pinned by a CRC. `time` is in whole seconds.
#[derive(Copy, Clone, Debug, PartialEq, Eq, Structural)]
pub struct Ctl {
    pub time: u64,
    pub ckpt: Lsn,
    pub ckptcpy: Ckpt,
}

/// The control-file bytes before the CRC field.
pub open spec fn spec_ctl_prefix(c: Ctl) -> Seq<u8> {
    spec_u32_to_le_bytes(KB_CTL_VER) + spec_u32_to_le_bytes(KB_CAT_VER) + spec_u64_to_le_bytes(
        c.time,
    ) + spec_u64_to_le_bytes(c.ckpt) + spec_ckpt_bytes(c.ckptcpy)
}

/// The full serialized control file.
pub open spec fn spec_ctl_bytes(c: Ctl) -> Seq<u8> {
    spec_ctl_prefix(c) + spec_u32_to_le_bytes(crc32c_of(spec_ctl_prefix(c)))
}

/// The control file encoded in `d`.
pub open spec fn spec_ctl_of(d: Seq<u8>) -> Ctl {
    Ctl { time: spec_get_u64(d, 8), ckpt: spec_get_u64(d, 16), ckptcpy: spec_ckpt_of(d.skip(24)) }
}

/// Whether `d` is an acceptable control file: right length, matching
/// version gates, and a CRC that matches the contents.
pub open spec fn spec_ctl_ok(d: Seq<u8>) -> bool {
    &&& d.len() == CTLLEN
    &&& spec_get_u32(d, 0) == KB_CTL_VER
    &&& spec_get_u32(d, 4) == KB_CAT_VER
    &&& spec_get_u32(d, CTL_CRC_OFF as int) == crc32c_of(d.take(CTL_CRC_OFF as int))
}

impl Ctl {
    /// A control file naming checkpoint `ckpt`, stamped `time` (whole
    /// seconds since the epoch, as the caller read the clock).
    pub fn new(time: u64, ckpt: Lsn, ckptcpy: Ckpt) -> (r: Ctl)
        ensures
            r == (Ctl { time, ckpt, ckptcpy }),
    {
        Ctl { time, ckpt, ckptcpy }
    }

    /// The blob to be written atomically over the whole control file.
    pub fn persist(&self) -> (r: Vec<u8>)
        ensures
            r@ == spec_ctl_bytes(*self),
            r@.len() == CTLLEN,
    {
        let mut d: Vec<u8> = Vec::new();
        codec::push_u32(&mut d, KB_CTL_VER);
        codec::push_u32(&mut d, KB_CAT_VER);
        codec::push_u64(&mut d, self.time);
        codec::push_u64(&mut d, self.ckpt);
        push_ckpt(&mut d, &self.ckptcpy);
        proof {
            lemma_auto_spec_u32_to_from_le_bytes();
            lemma_auto_spec_u64_to_from_le_bytes();
            assert(d@ =~= spec_ctl_prefix(*self));
        }
        let crc = crc::crc32c(d.as_slice());
        codec::push_u32(&mut d, crc);
        proof {
            lemma_auto_spec_u32_to_from_le_bytes();
            lemma_auto_spec_u64_to_from_le_bytes();
            assert(d@ =~= spec_ctl_bytes(*self));
        }
        d
    }

    /// Validates and decodes a control file read back from disk, rejecting
    /// a wrong length, mismatched versions, and a CRC mismatch.
    pub fn load(d: &[u8]) -> (r: Result<Ctl, WalError>)
        ensures
            r is Ok <==> spec_ctl_ok(d@),
            r matches Ok(c) ==> c == spec_ctl_of(d@),
            d@.len() != CTLLEN ==> (r matches Err(e) && e == WalError::BadCtlLen),
            d@.len() == CTLLEN && spec_get_u32(d@, 0) != KB_CTL_VER ==> (r matches Err(e) && e
                == WalError::BadCtlVer),
            d@.len() == CTLLEN && spec_get_u32(d@, 0) == KB_CTL_VER && spec_get_u32(d@, 4)
                != KB_CAT_VER ==> (r matches Err(e) && e == WalError::BadCatVer),
            d@.len() == CTLLEN && spec_get_u32(d@, 0) == KB_CTL_VER && spec_get_u32(d@, 4)
                == KB_CAT_VER && spec_get_u32(d@, CTL_CRC_OFF as int) != crc32c_of(
                d@.take(CTL_CRC_OFF as int),
            ) ==> (r matches Err(e) && e == WalError::BadCrc),
    {
        if d.len() != CTLLEN {
            return Err(WalError::BadCtlLen);
        }
        if codec::get_u32(d, 0) != KB_CTL_VER {
            return Err(WalError::BadCtlVer);
        }
        if codec::get_u32(d, 4) != KB_CAT_VER {
            return Err(WalError::BadCatVer);
        }
        let crc = crc::crc32c(slice_subrange(d, 0, CTL_CRC_OFF));
        if codec::get_u32(d, CTL_CRC_OFF) != crc {
            return Err(WalError::BadCrc);
        }
        let body = slice_subrange(d, 24, CTLLEN);
        Ok(
            Ctl {
                time: codec::get_u64(d, 8),
                ckpt: codec::get_u64(d, 16),
                ckptcpy: get_ckpt(body),
            },
        )
    }
}

/// Control-file round trip: the blob written by `persist` is accepted by
/// `load` and decodes to the same control file.
pub proof fn lemma_ctl_round_trip(c: Ctl)
    ensures
        spec_ctl_ok(spec_ctl_bytes(c)),
        spec_ctl_of(spec_ctl_bytes(c)) == c,
{
    lemma_auto_spec_u32_to_from_le_bytes();
    lemma_auto_spec_u64_to_from_le_bytes();
    let d = spec_ctl_bytes(c);
    assert(d.take(CTL_CRC_OFF as int) =~= spec_ctl_prefix(c));
    assert(d.subrange(0, 4) =~= spec_u32_to_le_bytes(KB_CTL_VER));
    assert(d.subrange(4, 8) =~= spec_u32_to_le_bytes(KB_CAT_VER));
    assert(d.subrange(8, 16) =~= spec_u64_to_le_bytes(c.time));
    assert(d.subrange(16, 24) =~= spec_u64_to_le_bytes(c.ckpt));
    assert(d.subrange(CTL_CRC_OFF as int, CTL_CRC_OFF as int + 4) =~= spec_u32_to_le_bytes(
        crc32c_of(spec_ctl_prefix(c)),
    ));
    assert(d.skip(24).subrange(0, 8) =~= spec_u64_to_le_bytes(c.ckptcpy.redo));
    assert(d.skip(24).subrange(8, 12) =~= spec_u32_to_le_bytes(c.ckptcpy.curtli));
    assert(d.skip(24).subrange(12, 16) =~= spec_u32_to_le_bytes(c.ckptcpy.prevtli));
    assert(d.skip(24).subrange(16, 24) =~= spec_u64_to_le_bytes(c.ckptcpy.nextxid));
    assert(d.skip(24).subrange(24, 28) =~= spec_u32_to_le_bytes(c.ckptcpy.nextoid));
    assert(d.skip(24).subrange(28, 36) =~= spec_u64_to_le_bytes(c.ckptcpy.time));
}

} // verus!
