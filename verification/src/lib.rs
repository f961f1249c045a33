//! Durability and transaction-visibility core of a relational storage
//! engine: the write-ahead log (WAL), the transaction manager that rides
//! on top of it, and the pinned shared-buffer cache used by pages.
use vstd::prelude::*;

pub mod codec;
pub mod clog;
pub mod crc;
pub mod ckpt;
pub mod progress;
pub mod rec;
pub mod rmgr;
pub mod sb;
pub mod wal;
pub mod walreader;
pub mod xact;

verus! {

/// Integrity and validation failures surfaced by the WAL subsystem.
#[derive(Copy, Clone, Debug, PartialEq, Eq, Structural)]
pub enum WalError {
    /// A record buffer shorter than the record header.
    RecordTooSmall,
    /// A record whose length field disagrees with the bytes at hand.
    BadRecordLen,
    /// A record or control file whose CRC does not match its contents.
    BadCrc,
    /// A record naming an unknown resource manager.
    BadRmgrId,
    /// A control file of the wrong size.
    BadCtlLen,
    /// A control file bearing an unexpected control-format version.
    BadCtlVer,
    /// A control file bearing an unexpected catalog version.
    BadCatVer,
    /// A record whose info opcode its resource manager does not know.
    BadInfo,
    /// A transactional record that carries no xid.
    MissingXid,
    /// The log ends before the next whole record.
    ShortRead,
    /// No segment file covers the requested position.
    NoWalFile,
}

/// Log sequence number: a byte offset in the infinite logical log.
/// Zero is reserved and means "absent" in on-disk encodings.
pub type Lsn = u64;

/// Timeline identifier; labels a branch of history. Zero means "absent".
pub type TimeLineID = u32;

/// Transaction identifier; ordering is total and defines visibility.
pub type Xid = u64;

/// Object identifier. Zero means "absent".
pub type Oid = u32;

/// The LSN at which the first real record of a fresh log sits; positions
/// below it are reserved.
pub const FIRST_REC_LSN: u64 = 0x0133F0E2;

/// The next transaction id, one past `xid`.
pub fn inc_xid(xid: Xid) -> (r: Xid)
    requires
        xid < u64::MAX,
    ensures
        r == xid + 1,
{
    xid + 1
}

/// The previous transaction id, one before `xid`.
pub fn dec_xid(xid: Xid) -> (r: Xid)
    requires
        xid > 0,
    ensures
        r == xid - 1,
{
    xid - 1
}

} // verus!
