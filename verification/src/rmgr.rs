//! Resource managers: the pluggable handlers that know how to redo and
//! describe records of one category, dispatched by the one-byte id in the
//! record header.
use crate::ckpt::{get_ckpt, spec_ckpt_of, CKPTLEN};
use crate::clog::Clog;
use crate::rec::RecordHdr;
use crate::{WalError, Xid};
use vstd::prelude::*;
use vstd::string::StringExecFns;

verus! {

/// The in-memory state recovery drives while replaying records.
pub struct RedoState {
    /// The next xid to resume allocation from, as replay tracks it.
    pub nextxid: Xid,
    /// The commit log replay writes transaction outcomes into.
    pub clog: Clog,
}

impl RedoState {
    pub fn new(nextxid: Xid, clog: Clog) -> (r: RedoState)
        ensures
            r.nextxid == nextxid,
            r.clog == clog,
    {
        RedoState { nextxid, clog }
    }

    pub fn set_nextxid(&mut self, nextxid: Xid)
        ensures
            final(self).nextxid == nextxid,
            final(self).clog == old(self).clog,
    {
        self.nextxid = nextxid;
    }
}

/// A resource manager: redo applies a record to recovery state, desc
/// renders it for humans.
pub trait Rmgr: Sized {
    /// What this manager's `redo` guarantees, relating the recovery state
    /// before and after the call.
    spec fn redo_post(
        &self,
        pre: RedoState,
        post: RedoState,
        hdr: RecordHdr,
        data: Seq<u8>,
        r: Result<(), WalError>,
    ) -> bool;

    fn name(&self) -> &'static str;

    fn redo(&mut self, hdr: &RecordHdr, data: &[u8], state: &mut RedoState) -> (r: Result<
        (),
        WalError,
    >)
        ensures
            old(self).redo_post(*old(state), *final(state), *hdr, data@, r),
    ;

    fn desc(&self, out: &mut String, hdr: &RecordHdr, data: &[u8]);

    fn descstr(&self, hdr: &RecordHdr, data: &[u8]) -> String {
        let mut s = String::new();
        self.desc(&mut s, hdr, data);
        s
    }
}

/// The opcodes of the XLOG resource manager, kept in the top nibble of the
/// record's `info` byte.
#[derive(Copy, Clone, Debug, PartialEq, Eq, Structural)]
pub enum XlogInfo {
    Ckpt,
}

/// The `info` byte carrying an XLOG opcode.
pub open spec fn spec_xlog_info_u8(v: XlogInfo) -> u8 {
    match v {
        XlogInfo::Ckpt => 0x10,
    }
}

pub fn xlog_info_u8(v: XlogInfo) -> (r: u8)
    ensures
        r == spec_xlog_info_u8(v),
{
    match v {
        XlogInfo::Ckpt => 0x10,
    }
}

/// The XLOG resource manager: handles checkpoint records.
pub struct XlogRmgr {}

impl XlogRmgr {
    pub fn new() -> XlogRmgr {
        XlogRmgr {  }
    }
}

impl Rmgr for XlogRmgr {
    /// Replaying a checkpoint record adopts its next-xid counter; anything
    /// else is refused and leaves the state alone.
    open spec fn redo_post(
        &self,
        pre: RedoState,
        post: RedoState,
        hdr: RecordHdr,
        data: Seq<u8>,
        r: Result<(), WalError>,
    ) -> bool {
        if hdr.info & 0xf0 == spec_xlog_info_u8(XlogInfo::Ckpt) && data.len() >= CKPTLEN {
            r is Ok && post.nextxid == spec_ckpt_of(data).nextxid && post.clog == pre.clog
        } else {
            r is Err && post == pre
        }
    }

    fn name(&self) -> &'static str {
        "XLOG"
    }

    fn redo(&mut self, hdr: &RecordHdr, data: &[u8], state: &mut RedoState) -> (r: Result<
        (),
        WalError,
    >) {
        if hdr.rmgr_info() != xlog_info_u8(XlogInfo::Ckpt) {
            return Err(WalError::BadInfo);
        }
        if data.len() < CKPTLEN {
            return Err(WalError::RecordTooSmall);
        }
        let ckpt = get_ckpt(data);
        state.set_nextxid(ckpt.nextxid);
        Ok(())
    }

    fn desc(&self, out: &mut String, hdr: &RecordHdr, data: &[u8]) {
        out.append("CHECKPOINT");
    }
}

} // verus!
