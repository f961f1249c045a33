//! WAL record layout: a fixed header prepended to every record body.
//!
//! On disk a record is `{totlen: u32, info: u8, id: u8, xid: u64,
//! prev: u64, crc32c: u32}`, packed little-endian, followed by the body.
//! The CRC covers the body first and then the header prefix up to but not
//! including the CRC field itself. `finish_record` stamps everything that
//! is known outside the insert lock (the body CRC); the inserter later
//! fills `prev` and folds the header prefix into the CRC with
//! `fill_record_prev`.
use crate::crc;
use crate::crc::{crc32c_extend, crc32c_of};
use crate::codec;
use crate::codec::{spec_get_u32, spec_get_u64};
use crate::{Lsn, WalError, Xid};
use vstd::bytes::{
    lemma_auto_spec_u32_to_from_le_bytes, lemma_auto_spec_u64_to_from_le_bytes,
    spec_u32_to_le_bytes, spec_u64_to_le_bytes,
};
use vstd::pervasive::VecAdditionalExecFns;
use vstd::prelude::*;
use vstd::slice::slice_subrange;

verus! {

/// Total bytes of the record header.
pub const RECHDRLEN: usize = 26;

/// Offset of the CRC field; the CRC covers the header up to here.
pub const REC_CRC_OFF: usize = 22;

/// Resource-manager identifier carried in every record header.
#[derive(Copy, Clone, Debug, PartialEq, Eq, Structural)]
pub enum RmgrId {
    Xlog,
    Xact,
}

pub open spec fn spec_rmgr_id_u8(id: RmgrId) -> u8 {
    match id {
        RmgrId::Xlog => 0,
        RmgrId::Xact => 1,
    }
}

pub fn rmgr_id_u8(id: RmgrId) -> (r: u8)
    ensures
        r == spec_rmgr_id_u8(id),
{
    match id {
        RmgrId::Xlog => 0,
        RmgrId::Xact => 1,
    }
}

/// The resource manager denoted by an id byte, if any.
pub fn rmgr_id_from_u8(v: u8) -> (r: Option<RmgrId>)
    ensures
        r matches Some(id) ==> spec_rmgr_id_u8(id) == v,
        r is None <==> v != 0 && v != 1,
{
    if v == 0 {
        Some(RmgrId::Xlog)
    } else if v == 1 {
        Some(RmgrId::Xact)
    } else {
        None
    }
}

/// A decoded record header. `xid` and `prev` are absent when the on-disk
/// field is zero.
#[derive(Copy, Clone, Debug)]
pub struct RecordHdr {
    pub totlen: u32,
    pub info: u8,
    pub id: RmgrId,
    pub xid: Option<Xid>,
    pub prev: Option<Lsn>,
}

impl RecordHdr {
    /// The resource manager's private opcode: the top nibble of `info`.
    pub fn rmgr_info(&self) -> (r: u8)
        ensures
            r == self.info & 0xf0,
    {
        self.info & 0xf0
    }
}

/// The on-disk form of an absent (`None`) u64 field is zero.
pub open spec fn spec_opt_u64(v: Option<u64>) -> u64 {
    match v {
        None => 0,
        Some(x) => x,
    }
}

pub fn opt_u64(v: Option<u64>) -> (r: u64)
    ensures
        r == spec_opt_u64(v),
{
    match v {
        None => 0,
        Some(x) => x,
    }
}

/// A decoded u64 field: zero reads back as absent.
pub open spec fn spec_u64_opt(v: u64) -> Option<u64> {
    if v == 0 {
        None
    } else {
        Some(v)
    }
}

pub fn u64_opt(v: u64) -> (r: Option<u64>)
    ensures
        r == spec_u64_opt(v),
{
    if v == 0 {
        None
    } else {
        Some(v)
    }
}

/// The header prefix covered by the CRC: everything before the CRC field.
pub open spec fn spec_hdr_prefix(totlen: u32, info: u8, id: RmgrId, xid: u64, prev: u64) -> Seq<
    u8,
> {
    spec_u32_to_le_bytes(totlen) + seq![info, spec_rmgr_id_u8(id)] + spec_u64_to_le_bytes(xid)
        + spec_u64_to_le_bytes(prev)
}

/// The record bytes produced by `finish_record`: header fields stamped,
/// `prev` left zero, CRC covering the body only.
pub open spec fn spec_finish_record(d: Seq<u8>, id: RmgrId, info: u8, xid: Option<Xid>) -> Seq<
    u8,
> {
    spec_hdr_prefix(d.len() as u32, info, id, spec_opt_u64(xid), 0) + spec_u32_to_le_bytes(
        crc32c_of(d.skip(RECHDRLEN as int)),
    ) + d.skip(RECHDRLEN as int)
}

/// The record bytes produced by the inserter: `prev` filled in and the CRC
/// extended from the body CRC over the header prefix.
pub open spec fn spec_fill_prev(d: Seq<u8>, prev: Option<Lsn>) -> Seq<u8> {
    let prefix = d.take(14) + spec_u64_to_le_bytes(spec_opt_u64(prev));
    prefix + spec_u32_to_le_bytes(crc32c_extend(spec_get_u32(d, REC_CRC_OFF as int), prefix))
        + d.skip(RECHDRLEN as int)
}

/// Stamps the header of an already-allocated record buffer whose first
/// `RECHDRLEN` bytes are reserved for the header. The CRC covers the body
/// only; `prev` stays zero until the inserter chains the record.
pub fn finish_record(d: &mut Vec<u8>, id: RmgrId, info: u8, xid: Option<Xid>)
    requires
        RECHDRLEN <= old(d).len() <= u32::MAX,
        xid != Some(0u64),
    ensures
        final(d)@ == spec_finish_record(old(d)@, id, info, xid),
{
    let len = d.len();
    let body_crc = crc::crc32c(slice_subrange(d.as_slice(), RECHDRLEN, len));
    codec::put_u32(d, 0, len as u32);
    d.set(4, info);
    d.set(5, rmgr_id_u8(id));
    codec::put_u64(d, 6, opt_u64(xid));
    codec::put_u64(d, 14, 0);
    codec::put_u32(d, REC_CRC_OFF, body_crc);
    proof {
        lemma_auto_spec_u32_to_from_le_bytes();
        lemma_auto_spec_u64_to_from_le_bytes();
        assert(final(d)@ =~= spec_finish_record(old(d)@, id, info, xid));
    }
}

/// Fills the `prev` back-link decided under the insert lock and folds the
/// header prefix into the CRC, which until now covered the body alone.
pub fn fill_record_prev(d: &mut Vec<u8>, prev: Option<Lsn>)
    requires
        RECHDRLEN <= old(d).len(),
    ensures
        final(d)@ == spec_fill_prev(old(d)@, prev),
        final(d).len() == old(d).len(),
{
    let body_crc = codec::get_u32(d.as_slice(), REC_CRC_OFF);
    codec::put_u64(d, 14, opt_u64(prev));
    let crc = crc::crc32c_append(body_crc, slice_subrange(d.as_slice(), 0, REC_CRC_OFF));
    proof {
        lemma_auto_spec_u64_to_from_le_bytes();
        assert(d@.subrange(0, REC_CRC_OFF as int) =~= old(d)@.take(14) + spec_u64_to_le_bytes(
            spec_opt_u64(prev),
        ));
    }
    codec::put_u32(d, REC_CRC_OFF, crc);
    proof {
        lemma_auto_spec_u32_to_from_le_bytes();
        lemma_auto_spec_u64_to_from_le_bytes();
        assert(final(d)@ =~= spec_fill_prev(old(d)@, prev));
    }
}

/// Whether `d` is a well-formed record: long enough for a header, length
/// field equal to the buffer length, a known resource-manager id, and a
/// CRC that matches body-then-header-prefix.
pub open spec fn spec_rec_ok(d: Seq<u8>) -> bool {
    &&& d.len() >= RECHDRLEN
    &&& spec_get_u32(d, 0) == d.len()
    &&& spec_get_u32(d, REC_CRC_OFF as int) == crc32c_extend(
        crc32c_of(d.skip(RECHDRLEN as int)),
        d.take(REC_CRC_OFF as int),
    )
    &&& (d[5] == 0 || d[5] == 1)
}

/// The header encoded in a well-formed record.
pub open spec fn spec_rec_hdr(d: Seq<u8>) -> RecordHdr {
    RecordHdr {
        totlen: spec_get_u32(d, 0),
        info: d[4],
        id: if d[5] == 0 {
            RmgrId::Xlog
        } else {
            RmgrId::Xact
        },
        xid: spec_u64_opt(spec_get_u64(d, 6)),
        prev: spec_u64_opt(spec_get_u64(d, 14)),
    }
}

/// Validates a record read back from the log: its length field, CRC and
/// resource-manager id. On success yields the decoded header and the body.
pub fn check_rec(d: &[u8]) -> (r: Result<(RecordHdr, &[u8]), WalError>)
    ensures
        r is Ok <==> spec_rec_ok(d@),
        r matches Ok((h, body)) ==> h == spec_rec_hdr(d@) && body@ == d@.skip(RECHDRLEN as int),
        d@.len() < RECHDRLEN ==> (r matches Err(e) && e == WalError::RecordTooSmall),
        d@.len() >= RECHDRLEN && spec_get_u32(d@, 0) != d@.len() ==> (r matches Err(e) && e
            == WalError::BadRecordLen),
        d@.len() >= RECHDRLEN && spec_get_u32(d@, 0) == d@.len() && spec_get_u32(
            d@,
            REC_CRC_OFF as int,
        ) != crc32c_extend(crc32c_of(d@.skip(RECHDRLEN as int)), d@.take(REC_CRC_OFF as int)) ==> (
        r matches Err(e) && e == WalError::BadCrc),
{
    let dlen = d.len();
    if dlen < RECHDRLEN {
        return Err(WalError::RecordTooSmall);
    }
    let totlen = codec::get_u32(d, 0);
    if totlen as usize != dlen {
        return Err(WalError::BadRecordLen);
    }
    let body = slice_subrange(d, RECHDRLEN, dlen);
    let crc = crc::crc32c(body);
    let crc = crc::crc32c_append(crc, slice_subrange(d, 0, REC_CRC_OFF));
    let stored = codec::get_u32(d, REC_CRC_OFF);
    if stored != crc {
        return Err(WalError::BadCrc);
    }
    let idb = slice_subrange(d, 5, 6)[0];
    let id = match rmgr_id_from_u8(idb) {
        Some(id) => id,
        None => {
            return Err(WalError::BadRmgrId);
        },
    };
    let info = slice_subrange(d, 4, 5)[0];
    let xid = u64_opt(codec::get_u64(d, 6));
    let prev = u64_opt(codec::get_u64(d, 14));
    let hdr = RecordHdr { totlen, info, id, xid, prev };
    Ok((hdr, body))
}

/// A fresh record buffer: header space reserved, `payload` as the body.
pub fn start_record(payload: &[u8]) -> (r: Vec<u8>)
    ensures
        r@.len() == RECHDRLEN + payload@.len(),
        r@.skip(RECHDRLEN as int) == payload@,
{
    let mut record: Vec<u8> = Vec::new();
    let mut i: usize = 0;
    while i < RECHDRLEN
        invariant
            i <= RECHDRLEN,
            record@.len() == i,
        decreases RECHDRLEN - i,
    {
        record.push(0);
        i = i + 1;
    }
    let n = payload.len();
    let mut j: usize = 0;
    while j < n
        invariant
            j <= n,
            n == payload@.len(),
            record@.len() == RECHDRLEN + j,
            record@.skip(RECHDRLEN as int) == payload@.take(j as int),
        decreases n - j,
    {
        record.push(payload[j]);
        proof {
            assert(record@.skip(RECHDRLEN as int) =~= payload@.take(j + 1));
        }
        j = j + 1;
    }
    proof {
        assert(payload@.take(n as int) =~= payload@);
    }
    record
}

/// Stamping a record's header leaves its length unchanged.
pub proof fn lemma_finish_record_len(d: Seq<u8>, id: RmgrId, info: u8, xid: Option<Xid>)
    requires
        RECHDRLEN <= d.len(),
    ensures
        spec_finish_record(d, id, info, xid).len() == d.len(),
{
    lemma_auto_spec_u32_to_from_le_bytes();
    lemma_auto_spec_u64_to_from_le_bytes();
}

/// Chaining a record leaves its length unchanged.
pub proof fn lemma_fill_prev_len(d: Seq<u8>, prev: Option<Lsn>)
    requires
        RECHDRLEN <= d.len(),
    ensures
        spec_fill_prev(d, prev).len() == d.len(),
{
    lemma_auto_spec_u32_to_from_le_bytes();
    lemma_auto_spec_u64_to_from_le_bytes();
}

/// The `prev` field of a record chained by the inserter holds the given
/// back-link.
pub proof fn lemma_fill_prev_field(d: Seq<u8>, prev: Option<Lsn>)
    requires
        RECHDRLEN <= d.len(),
    ensures
        spec_get_u64(spec_fill_prev(d, prev), 14) == spec_opt_u64(prev),
{
    lemma_auto_spec_u64_to_from_le_bytes();
    let e = spec_fill_prev(d, prev);
    assert(e.subrange(14, 22) =~= spec_u64_to_le_bytes(spec_opt_u64(prev)));
}

/// CRC round trip: a record stamped by `finish_record` and then chained by
/// the inserter passes `check_rec` and decodes to the same header fields
/// and the same body.
pub proof fn lemma_record_round_trip(
    d: Seq<u8>,
    id: RmgrId,
    info: u8,
    xid: Option<Xid>,
    prev: Option<Lsn>,
)
    requires
        RECHDRLEN <= d.len() <= u32::MAX,
        xid != Some(0u64),
        prev != Some(0u64),
    ensures
        spec_rec_ok(spec_fill_prev(spec_finish_record(d, id, info, xid), prev)),
        spec_rec_hdr(spec_fill_prev(spec_finish_record(d, id, info, xid), prev)) == (RecordHdr {
            totlen: d.len() as u32,
            info,
            id,
            xid,
            prev,
        }),
        spec_fill_prev(spec_finish_record(d, id, info, xid), prev).skip(RECHDRLEN as int)
            == d.skip(RECHDRLEN as int),
{
    lemma_auto_spec_u32_to_from_le_bytes();
    lemma_auto_spec_u64_to_from_le_bytes();
    let body = d.skip(RECHDRLEN as int);
    let idb = spec_rmgr_id_u8(id);
    let x = spec_opt_u64(xid);
    let p = spec_opt_u64(prev);
    let f = spec_finish_record(d, id, info, xid);
    assert(f.take(14) =~= spec_u32_to_le_bytes(d.len() as u32) + seq![info, idb]
        + spec_u64_to_le_bytes(x));
    assert(f.subrange(REC_CRC_OFF as int, REC_CRC_OFF as int + 4) =~= spec_u32_to_le_bytes(
        crc32c_of(body),
    ));
    let prefix = f.take(14) + spec_u64_to_le_bytes(p);
    let e = spec_fill_prev(f, prev);
    assert(f.skip(RECHDRLEN as int) =~= body);
    assert(e == prefix + spec_u32_to_le_bytes(crc32c_extend(crc32c_of(body), prefix)) + body);
    assert(e.subrange(0, 4) =~= spec_u32_to_le_bytes(d.len() as u32));
    assert(e.take(REC_CRC_OFF as int) =~= prefix);
    assert(e.subrange(REC_CRC_OFF as int, REC_CRC_OFF as int + 4) =~= spec_u32_to_le_bytes(
        crc32c_extend(crc32c_of(body), prefix),
    ));
    assert(e.skip(RECHDRLEN as int) =~= body);
    assert(e.subrange(6, 14) =~= spec_u64_to_le_bytes(x));
    assert(e.subrange(14, 22) =~= spec_u64_to_le_bytes(p));
    assert(e[4] == info);
    assert(e[5] == idb);
}

} // verus!
