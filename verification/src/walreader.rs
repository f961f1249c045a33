//! Reading the WAL back: a reader that walks segment files from a start
//! position and yields validated records, against a pluggable segment
//! store.
use crate::codec;
use crate::rec::{check_rec, spec_rec_hdr, spec_rec_ok, RecordHdr, RECHDRLEN};
use crate::{Lsn, TimeLineID, WalError};
use vstd::prelude::*;
use vstd::string::StringExecFns;

verus! {

/// One readable WAL segment: its bytes and the LSN they start at.
pub trait WalStorageFile: Sized {
    /// The segment's contents.
    spec fn bytes(&self) -> Seq<u8>;

    /// The LSN of the segment's first byte.
    spec fn spec_lsn(&self) -> Lsn;

    /// Reads up to `len` bytes at `offset`, stopping at the segment's end.
    fn pread(&self, offset: usize, len: usize) -> (r: Vec<u8>)
        requires
            offset <= self.bytes().len(),
        ensures
            r@ == self.bytes().subrange(
                offset as int,
                if offset + len <= self.bytes().len() {
                    offset + len
                } else {
                    self.bytes().len() as int
                },
            ),
    ;

    fn len(&self) -> (r: usize)
        ensures
            r == self.bytes().len(),
    ;

    fn lsn(&self) -> (r: Lsn)
        ensures
            r == self.spec_lsn(),
    ;
}

/// Where segments live: lookup by position, open by key, recycling of
/// positions no longer needed.
pub trait WalStorage: Sized {
    type File: WalStorageFile;

    /// The key of a segment that holds `lsn`, if one does.
    fn find(&self, lsn: Lsn) -> Result<Option<String>, WalError>;

    /// Opens the segment named by `key`. An opened segment sits at a
    /// positive LSN and ends within the addressable log.
    fn open(&mut self, key: &String) -> (r: Result<Self::File, WalError>)
        ensures
            r matches Ok(f) ==> f.spec_lsn() > 0 && f.spec_lsn() + f.bytes().len() <= u64::MAX,
    ;

    /// Releases every segment that ends at or before `lsn`.
    fn recycle(&mut self, lsn: Lsn) -> Result<(), WalError>;
}

/// An in-memory segment: a name, a start LSN and the bytes.
pub struct MemWalFile {
    pub name: String,
    pub start_lsn: Lsn,
    pub data: Vec<u8>,
}

impl WalStorageFile for MemWalFile {
    open spec fn bytes(&self) -> Seq<u8> {
        self.data@
    }

    open spec fn spec_lsn(&self) -> Lsn {
        self.start_lsn
    }

    fn pread(&self, offset: usize, len: usize) -> (r: Vec<u8>) {
        let end = if len <= self.data.len() - offset {
            offset + len
        } else {
            self.data.len()
        };
        let mut r: Vec<u8> = Vec::new();
        let mut i: usize = offset;
        while i < end
            invariant
                offset <= i <= end <= self.data@.len(),
                r@ == self.data@.subrange(offset as int, i as int),
            decreases end - i,
        {
            r.push(self.data[i]);
            proof {
                assert(r@ =~= self.data@.subrange(offset as int, i + 1));
            }
            i = i + 1;
        }
        r
    }

    fn len(&self) -> (r: usize) {
        self.data.len()
    }

    fn lsn(&self) -> (r: Lsn) {
        self.start_lsn
    }
}

/// An exact copy of a byte vector.
fn copy_bytes(v: &Vec<u8>) -> (r: Vec<u8>)
    ensures
        r@ == v@,
{
    let mut r: Vec<u8> = Vec::new();
    let mut i: usize = 0;
    while i < v.len()
        invariant
            i <= v@.len(),
            r@ == v@.subrange(0, i as int),
        decreases v@.len() - i,
    {
        r.push(v[i]);
        proof {
            assert(r@ =~= v@.subrange(0, i + 1));
        }
        i = i + 1;
    }
    proof {
        assert(v@.subrange(0, v@.len() as int) =~= v@);
    }
    r
}

/// A segment store held in memory: what the engine wrote, as recovery
/// would find it.
pub struct LocalWalStorage {
    pub files: Vec<MemWalFile>,
}

impl LocalWalStorage {
    pub fn new() -> (r: LocalWalStorage)
        ensures
            r.files@.len() == 0,
    {
        LocalWalStorage { files: Vec::new() }
    }

    /// Registers a segment.
    pub fn add_file(&mut self, name: String, start_lsn: Lsn, data: Vec<u8>)
        ensures
            final(self).files@ == old(self).files@.push(
                MemWalFile { name, start_lsn, data },
            ),
    {
        self.files.push(MemWalFile { name, start_lsn, data });
    }
}

impl WalStorage for LocalWalStorage {
    type File = MemWalFile;

    fn find(&self, lsn: Lsn) -> (r: Result<Option<String>, WalError>)
        ensures
            r matches Ok(Some(k)) ==> exists|i: int|
                0 <= i < self.files@.len() && (#[trigger] self.files@[i]).name@ == k@
                    && self.files@[i].start_lsn <= lsn < self.files@[i].start_lsn
                    + self.files@[i].data@.len(),
            r matches Ok(None) ==> forall|i: int|
                0 <= i < self.files@.len() ==> !((#[trigger] self.files@[i]).start_lsn <= lsn
                    && self.files@[i].start_lsn + self.files@[i].data@.len() <= u64::MAX && lsn
                    < self.files@[i].start_lsn + self.files@[i].data@.len()),
    {
        let n = self.files.len();
        let mut i: usize = 0;
        while i < n
            invariant
                i <= n,
                n == self.files@.len(),
                forall|j: int|
                    0 <= j < i ==> !((#[trigger] self.files@[j]).start_lsn <= lsn
                        && self.files@[j].start_lsn + self.files@[j].data@.len() <= u64::MAX
                        && lsn < self.files@[j].start_lsn + self.files@[j].data@.len()),
            decreases n - i,
        {
            let start = self.files[i].start_lsn;
            let flen = self.files[i].data.len() as u64;
            if start <= lsn && start <= u64::MAX - flen && lsn < start + flen {
                let k = self.files[i].name.clone();
                proof {
                    assert(self.files@[i as int].name@ == k@);
                }
                return Ok(Some(k));
            }
            i = i + 1;
        }
        Ok(None)
    }

    fn open(&mut self, key: &String) -> (r: Result<MemWalFile, WalError>)
        ensures
            r matches Ok(f) ==> exists|i: int|
                0 <= i < old(self).files@.len() && (#[trigger] old(self).files@[i]).name@ == key@
                    && f.start_lsn == old(self).files@[i].start_lsn && f.data@ == old(
                    self,
                ).files@[i].data@,
    {
        let n = self.files.len();
        let mut i: usize = 0;
        while i < n
            invariant
                i <= n,
                n == self.files@.len(),
            decreases n - i,
        {
            if self.files[i].name.eq(key) {
                let start = self.files[i].start_lsn;
                let flen = self.files[i].data.len() as u64;
                if start == 0 || start > u64::MAX - flen {
                    return Err(WalError::NoWalFile);
                }
                return Ok(
                    MemWalFile {
                        name: self.files[i].name.clone(),
                        start_lsn: start,
                        data: copy_bytes(&self.files[i].data),
                    },
                );
            }
            i = i + 1;
        }
        Err(WalError::NoWalFile)
    }

    fn recycle(&mut self, lsn: Lsn) -> (r: Result<(), WalError>)
        ensures
            r is Ok,
            forall|i: int|
                0 <= i < final(self).files@.len() ==> (#[trigger] final(self).files@[i]).start_lsn
                    + final(self).files@[i].data@.len() > lsn,
    {
        let mut kept: Vec<MemWalFile> = Vec::new();
        loop
            invariant
                forall|i: int|
                    0 <= i < kept@.len() ==> (#[trigger] kept@[i]).start_lsn + kept@[i].data@.len()
                        > lsn,
            decreases self.files@.len(),
        {
            if self.files.len() == 0 {
                break ;
            }
            let f = self.files.remove(0);
            let flen = f.data.len() as u64;
            if f.start_lsn > u64::MAX - flen || f.start_lsn + flen > lsn {
                kept.push(f);
            }
        }
        core::mem::swap(&mut self.files, &mut kept);
        Ok(())
    }
}

/// Walks the log from a start position, yielding one validated record at
/// a time: header read, length checked, body read, CRC checked.
pub struct WalReader<S: WalStorage> {
    pub storage: S,
    /// The LSN of the last record yielded, once one was.
    pub readlsn: Option<Lsn>,
    /// The position the next record starts at.
    pub endlsn: Lsn,
    pub file: Option<S::File>,
}

impl<S: WalStorage> WalReader<S> {
    pub fn new(storage: S, startlsn: Lsn) -> (r: WalReader<S>)
        ensures
            r.readlsn is None,
            r.endlsn == startlsn,
    {
        WalReader { storage, readlsn: None, endlsn: startlsn, file: None }
    }

    /// Restarts the walk at `startlsn`.
    pub fn rescan(&mut self, startlsn: Lsn)
        ensures
            final(self).readlsn is None,
            final(self).endlsn == startlsn,
    {
        self.readlsn = None;
        self.endlsn = startlsn;
        self.file = None;
    }

    /// Reads and validates the record at the current position. On success
    /// the yielded header and body come from a record that passes the
    /// whole-record check, and the reader advances past it; on any error
    /// the durable log is considered to end here.
    pub fn read_record(&mut self) -> (r: Result<(RecordHdr, Vec<u8>), WalError>)
        ensures
            // What is yielded comes from the storage: the bytes of the
            // segment that covers the position, validated as a whole
            // record.
            r matches Ok((hdr, body)) ==> (final(self).file matches Some(f) && {
                let off = old(self).endlsn - f.spec_lsn();
                let rec = f.bytes().subrange(off as int, off + hdr.totlen);
                &&& final(self).readlsn == Some(old(self).endlsn)
                &&& final(self).endlsn == old(self).endlsn + hdr.totlen
                &&& hdr.totlen >= RECHDRLEN
                &&& f.spec_lsn() <= old(self).endlsn
                &&& off + hdr.totlen <= f.bytes().len()
                &&& spec_rec_ok(rec)
                &&& hdr == spec_rec_hdr(rec)
                &&& body@ == rec.skip(RECHDRLEN as int)
            }),
            // On the path where the cached segment already covers the
            // position, no under-specified call intervenes, so the
            // outcome is pinned: the walk ends exactly on a short tail,
            // a bad length field, or a failed whole-record check.
            match old(self).file {
                None => true,
                Some(f) => (f.spec_lsn() <= old(self).endlsn && old(self).endlsn - f.spec_lsn()
                    < f.bytes().len() && f.spec_lsn() + f.bytes().len() <= u64::MAX) ==> {
                let off = (old(self).endlsn - f.spec_lsn()) as int;
                let avail = f.bytes().len() - off;
                let totlen = crate::codec::spec_get_u32(f.bytes(), off) as int;
                &&& (avail < RECHDRLEN ==> (r matches Err(e) && e == WalError::ShortRead))
                &&& (avail >= RECHDRLEN && totlen < RECHDRLEN ==> (r matches Err(e) && e
                    == WalError::BadRecordLen))
                &&& (avail >= RECHDRLEN && totlen >= RECHDRLEN && totlen > avail ==> (r matches
                    Err(e) && e == WalError::ShortRead))
                &&& (avail >= RECHDRLEN && RECHDRLEN <= totlen <= avail ==> {
                    let rec = f.bytes().subrange(off, off + totlen);
                    &&& (r is Ok <==> spec_rec_ok(rec))
                    &&& (crate::codec::spec_get_u32(rec, crate::rec::REC_CRC_OFF as int)
                        != crate::crc::crc32c_extend(
                        crate::crc::crc32c_of(rec.skip(RECHDRLEN as int)),
                        rec.take(crate::rec::REC_CRC_OFF as int),
                    ) ==> (r matches Err(e) && e == WalError::BadCrc))
                })
                },
            },
    {
        let endlsn = self.endlsn;
        let covered = match &self.file {
            Some(f) => {
                let fl = f.lsn();
                fl <= endlsn && endlsn - fl < f.len() as u64
            },
            None => false,
        };
        if !covered {
            let key = match self.storage.find(endlsn) {
                Err(e) => {
                    return Err(e);
                },
                Ok(None) => {
                    return Err(WalError::NoWalFile);
                },
                Ok(Some(k)) => k,
            };
            let f = match self.storage.open(&key) {
                Err(e) => {
                    return Err(e);
                },
                Ok(f) => f,
            };
            self.file = Some(f);
        }
        let f = match &self.file {
            Some(f) => f,
            None => {
                return Err(WalError::NoWalFile);
            },
        };
        let fl = f.lsn();
        let flen = f.len();
        if !(fl <= endlsn && endlsn - fl < flen as u64) {
            return Err(WalError::NoWalFile);
        }
        if fl > u64::MAX - flen as u64 {
            return Err(WalError::NoWalFile);
        }
        let off = (endlsn - fl) as usize;
        let hdrbytes = f.pread(off, RECHDRLEN);
        if hdrbytes.len() < RECHDRLEN {
            return Err(WalError::ShortRead);
        }
        proof {
            assert(hdrbytes@.subrange(0, 4) =~= f.bytes().subrange(off as int, off as int + 4));
        }
        let totlen32 = codec::get_u32(hdrbytes.as_slice(), 0);
        let totlen = totlen32 as usize;
        if totlen < RECHDRLEN {
            return Err(WalError::BadRecordLen);
        }
        let mut rec = f.pread(off, totlen);
        if rec.len() < totlen {
            return Err(WalError::ShortRead);
        }
        proof {
            assert(rec@ =~= f.bytes().subrange(off as int, off as int + totlen));
            assert(rec@.subrange(0, 4) =~= f.bytes().subrange(off as int, off as int + 4));
        }
        let hdr = match check_rec(rec.as_slice()) {
            Ok((hdr, _body)) => hdr,
            Err(e) => {
                return Err(e);
            },
        };
        let ghost recview = rec@;
        let body = rec.split_off(RECHDRLEN);
        self.readlsn = Some(endlsn);
        self.endlsn = endlsn + totlen as u64;
        proof {
            assert(body@ =~= recview.skip(RECHDRLEN as int));
            assert(spec_rec_ok(recview) && recview.len() == hdr.totlen && hdr == spec_rec_hdr(
                recview,
            ) && body@ == recview.skip(RECHDRLEN as int));
        }
        Ok((hdr, body))
    }

    /// The timeline the walk ends on.
    pub fn endtli(&self) -> (r: TimeLineID)
        ensures
            r == 1,
    {
        1
    }
}

} // verus!
