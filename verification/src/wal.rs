//! The WAL insert core: append-only, crash-safe record insertion into
//! monotonically increasing log positions.
//!
//! `InsertState` is the state normally guarded by the insert mutex: the
//! in-memory append buffer, the current segment file, the next-LSN cursor
//! and the prev-record back-link. `insert` decides, without doing any I/O,
//! what the caller must do next: nothing, write the swapped-out buffer, or
//! also rotate to a new segment file. `GlobalStateExt` carries that
//! decision out against an in-memory segment store and tracks write and
//! flush progress.
use crate::progress::ProgressTracker;
use crate::rec::{fill_record_prev, spec_fill_prev, RECHDRLEN};
use crate::{Lsn, TimeLineID};
use vstd::prelude::*;
use vstd::seq_lib::lemma_flatten_concat;
use vstd::string::StringExecFns;

verus! {

/// The views of a queue of record buffers.
pub open spec fn bufs_view(bufs: Seq<Vec<u8>>) -> Seq<Seq<u8>> {
    bufs.map_values(|b: Vec<u8>| b@)
}

/// A request to write queued buffers (and an optional trailing record)
/// into the segment file that starts at `file_start_lsn`, beginning at log
/// position `buflsn`.
pub struct InsertWriteReq {
    pub buf: Vec<Vec<u8>>,
    pub record: Option<Vec<u8>>,
    pub buflsn: Lsn,
    pub file_start_lsn: Lsn,
}

impl InsertWriteReq {
    /// The bytes this request writes, in order.
    pub open spec fn bytes(self) -> Seq<u8> {
        bufs_view(self.buf@).flatten() + match self.record {
            Some(r) => r@,
            None => Seq::<u8>::empty(),
        }
    }
}

/// What the caller of `insert` must do once the insert lock is released.
pub enum InsertRet {
    /// The record crossed the segment-size boundary: write, then open the
    /// next segment at `retlsn`.
    WriteAndCreate { tli: TimeLineID, retlsn: Lsn, wreq: InsertWriteReq },
    /// The in-memory buffer reached its high-water mark: write it out.
    Write(Lsn, InsertWriteReq),
    /// The record was queued; nothing to do.
    NoAction(Lsn),
}

/// The LSN an insert returns: the end position of the inserted record.
pub open spec fn spec_ret_lsn(r: InsertRet) -> Lsn {
    match r {
        InsertRet::WriteAndCreate { retlsn, .. } => retlsn,
        InsertRet::Write(l, _) => l,
        InsertRet::NoAction(l) => l,
    }
}

/// The insert state: what the insert mutex protects.
pub struct InsertState {
    pub curtimeline: TimeLineID,
    pub wal_buff_max_size: usize,
    pub wal_file_max_size: u64,
    pub redo: Lsn,
    pub buf: Vec<Vec<u8>>,
    pub buflsn: Lsn,
    pub prevlsn: Option<Lsn>,
    pub bufsize: usize,
    pub forcesync: bool,
    /// Start LSN of the active segment file. When absent, the next record
    /// starts a new segment at `buflsn`.
    pub file: Option<Lsn>,
}

impl InsertState {
    /// The LSN at which the next record will be placed.
    pub open spec fn spec_nextlsn(self) -> int {
        self.buflsn + self.bufsize
    }

    pub open spec fn wf(self) -> bool {
        &&& 0 < self.buflsn
        &&& self.buflsn + self.bufsize <= u64::MAX
        &&& self.bufsize == bufs_view(self.buf@).flatten().len()
        &&& self.prevlsn != Some(0u64)
        &&& self.wal_file_max_size > 0
        &&& match self.file {
            Some(fl) => 0 < fl <= self.buflsn && self.buflsn + self.bufsize < fl
                + self.wal_file_max_size,
            None => true,
        }
    }

    pub fn nextlsn(&self) -> (r: Lsn)
        requires
            self.buflsn + self.bufsize <= u64::MAX,
        ensures
            r == self.spec_nextlsn(),
    {
        self.buflsn + (self.bufsize as u64)
    }

    /// Hands the queued buffers (and `record`, if the rotation or write
    /// carries one) out as a write request, and restarts the buffer at
    /// `newbuflsn`.
    pub fn swap_buff(
        &mut self,
        file_start_lsn: Lsn,
        record: Option<Vec<u8>>,
        newbuflsn: Lsn,
    ) -> (wreq: InsertWriteReq)
        ensures
            wreq.buf@ == old(self).buf@,
            wreq.record == record,
            wreq.buflsn == old(self).buflsn,
            wreq.file_start_lsn == file_start_lsn,
            *final(self) == (InsertState {
                buf: final(self).buf,
                buflsn: newbuflsn,
                bufsize: 0,
                ..*old(self)
            }),
            final(self).buf@.len() == 0,
    {
        let mut b: Vec<Vec<u8>> = Vec::new();
        core::mem::swap(&mut b, &mut self.buf);
        let wreq = InsertWriteReq { buf: b, record, buflsn: self.buflsn, file_start_lsn };
        self.buflsn = newbuflsn;
        self.bufsize = 0;
        wreq
    }

    /// How `insert` relates the prior state, the record as handed in, the
    /// new state and the returned action.
    pub open spec fn insert_rel(
        pre: InsertState,
        rec: Seq<u8>,
        post: InsertState,
        r: InsertRet,
    ) -> bool {
        let reclsn = pre.spec_nextlsn();
        let retv = reclsn + rec.len();
        let finished = spec_fill_prev(rec, pre.prevlsn);
        &&& post.curtimeline == pre.curtimeline
        &&& post.wal_buff_max_size == pre.wal_buff_max_size
        &&& post.wal_file_max_size == pre.wal_file_max_size
        &&& post.redo == pre.redo
        &&& post.forcesync == pre.forcesync
        &&& post.prevlsn == Some(reclsn as u64)
        &&& post.spec_nextlsn() == retv
        &&& spec_ret_lsn(r) == retv
        &&& match r {
            InsertRet::WriteAndCreate { tli, retlsn, wreq } => {
                &&& pre.file == Some(wreq.file_start_lsn)
                &&& retv - wreq.file_start_lsn >= pre.wal_file_max_size
                &&& tli == pre.curtimeline
                &&& bufs_view(wreq.buf@) == bufs_view(pre.buf@)
                &&& wreq.record matches Some(rr) && rr@ == finished
                &&& wreq.buflsn == pre.buflsn
                &&& post.file is None
                &&& post.buflsn == retv
                &&& post.buf@.len() == 0
            },
            InsertRet::Write(_, wreq) => {
                &&& pre.file == Some(wreq.file_start_lsn)
                &&& retv - wreq.file_start_lsn < pre.wal_file_max_size
                &&& pre.bufsize + rec.len() >= pre.wal_buff_max_size
                &&& bufs_view(wreq.buf@) == bufs_view(pre.buf@)
                &&& wreq.record matches Some(rr) && rr@ == finished
                &&& wreq.buflsn == pre.buflsn
                &&& post.file == pre.file
                &&& post.buflsn == retv
                &&& post.buf@.len() == 0
            },
            InsertRet::NoAction(_) => {
                &&& (pre.file matches Some(fl) ==> retv - fl < pre.wal_file_max_size
                    && pre.bufsize + rec.len() < pre.wal_buff_max_size)
                &&& bufs_view(post.buf@) == bufs_view(pre.buf@).push(finished)
                &&& post.buflsn == pre.buflsn
                &&& post.file == pre.file
            },
        }
    }

    /// Chains the record to its predecessor, assigns it the next LSN, and
    /// decides what the caller must do with the buffer. No I/O happens
    /// here: in a concurrent deployment this step is what the insert
    /// mutex protects, so it must stay short.
    pub fn insert(&mut self, record: Vec<u8>) -> (r: InsertRet)
        requires
            old(self).wf(),
            RECHDRLEN <= record@.len(),
            old(self).spec_nextlsn() + record@.len() <= u64::MAX,
            old(self).bufsize + record@.len() <= usize::MAX,
        ensures
            final(self).wf(),
            InsertState::insert_rel(*old(self), record@, *final(self), r),
    {
        let ghost orig = record@;
        let mut record = record;
        fill_record_prev(&mut record, self.prevlsn);
        let reclsn = self.nextlsn();
        let newbufsize = self.bufsize + record.len();
        let retlsnval = reclsn + record.len() as u64;
        self.prevlsn = Some(reclsn);
        let fileopt = self.file;
        match fileopt {
            Some(fl) => {
                let newfilesize = retlsnval - fl;
                if newfilesize >= self.wal_file_max_size {
                    self.file = None;
                    let wreq = self.swap_buff(fl, Some(record), retlsnval);
                    return InsertRet::WriteAndCreate {
                        tli: self.curtimeline,
                        retlsn: retlsnval,
                        wreq,
                    };
                }
                if newbufsize >= self.wal_buff_max_size {
                    let wreq = self.swap_buff(fl, Some(record), retlsnval);
                    return InsertRet::Write(retlsnval, wreq);
                }
            },
            None => {},
        }
        self.bufsize = newbufsize;
        self.buf.push(record);
        proof {
            let finished = spec_fill_prev(orig, old(self).prevlsn);
            assert(bufs_view(self.buf@) =~= bufs_view(old(self).buf@).push(finished));
            lemma_flatten_concat(bufs_view(old(self).buf@), seq![finished]);
            assert(bufs_view(old(self).buf@).push(finished) =~= bufs_view(old(self).buf@)
                + seq![finished]);
            seq![finished].lemma_flatten_one_element();
            assert(seq![finished].first() == finished);
        }
        InsertRet::NoAction(retlsnval)
    }
}

/// LSN monotonicity: across successive inserts the returned LSNs strictly
/// increase, and the record emitted by the second insert back-links the
/// LSN at which the immediately preceding record was placed.
pub proof fn lemma_lsn_monotonic(
    s0: InsertState,
    r1: Seq<u8>,
    s1: InsertState,
    t1: InsertRet,
    r2: Seq<u8>,
    s2: InsertState,
    t2: InsertRet,
)
    requires
        RECHDRLEN <= r1.len(),
        RECHDRLEN <= r2.len(),
        s0.spec_nextlsn() + r1.len() <= u64::MAX,
        s1.spec_nextlsn() + r2.len() <= u64::MAX,
        InsertState::insert_rel(s0, r1, s1, t1),
        InsertState::insert_rel(s1, r2, s2, t2),
    ensures
        spec_ret_lsn(t1) < spec_ret_lsn(t2),
        crate::codec::spec_get_u64(spec_fill_prev(r2, s1.prevlsn), 14) == s0.spec_nextlsn(),
{
    crate::rec::lemma_fill_prev_field(r2, s1.prevlsn);
}

/// An in-memory WAL segment file: the bytes written from `start_lsn` on.
pub struct WalFileMem {
    pub tli: TimeLineID,
    pub start_lsn: Lsn,
    pub data: Vec<u8>,
}

/// The contents of a run of segment files, in log order.
pub open spec fn files_bytes(files: Seq<WalFileMem>) -> Seq<u8> {
    files.map_values(|f: WalFileMem| f.data@).flatten()
}

/// The WAL global state: the insert state (normally behind its mutex), the
/// write and flush progress trackers, and the segment files the log has
/// been written into.
pub struct GlobalStateExt {
    /// The value of `insert.redo` at a past time; refreshed whenever the
    /// insert state is entered.
    pub redo: Lsn,
    pub insert: InsertState,
    pub write: ProgressTracker,
    pub flush: ProgressTracker,
    pub files: Vec<WalFileMem>,
}

impl GlobalStateExt {
    /// The LSN at which the log begins.
    pub open spec fn log_start(self) -> int {
        self.files@[0].start_lsn as int
    }

    /// Every byte the log holds, written or still buffered, from
    /// `log_start` on.
    pub open spec fn log(self) -> Seq<u8> {
        files_bytes(self.files@) + bufs_view(self.insert.buf@).flatten()
    }

    pub open spec fn wf(self) -> bool {
        &&& self.insert.wf()
        &&& self.insert.file is Some
        &&& !self.insert.forcesync
        &&& self.redo == self.insert.redo
        &&& self.files@.len() > 0
        &&& self.files@[0].start_lsn > 0
        &&& self.files@.last().start_lsn == self.insert.file.unwrap()
        &&& self.files@.last().tli == self.insert.curtimeline
        &&& self.files@.last().start_lsn + self.files@.last().data@.len() == self.insert.buflsn
        &&& files_bytes(self.files@).len() == self.insert.buflsn - self.log_start()
        &&& self.write.wf()
        &&& self.flush.wf()
        &&& self.write.spec_mark() == self.insert.buflsn
        &&& self.flush.spec_mark() <= self.write.spec_mark()
        &&& self.flush.spec_mark() >= self.files@.last().start_lsn
        &&& forall|p: int| self.write.covers(p) <==> p < self.write.spec_mark()
        &&& forall|p: int| self.flush.covers(p) <==> p < self.flush.spec_mark()
    }

    /// A fresh WAL global: the log begins at `lsn` on timeline `tli`, a
    /// new segment file is open there, and nothing is buffered.
    pub fn new(
        tli: TimeLineID,
        lsn: Lsn,
        prevlsn: Option<Lsn>,
        redo: Lsn,
        wal_buff_max_size: usize,
        wal_file_max_size: u64,
    ) -> (r: GlobalStateExt)
        requires
            lsn > 0,
            prevlsn != Some(0u64),
            wal_file_max_size > 0,
        ensures
            r.wf(),
            r.insert.spec_nextlsn() == lsn,
            r.insert.prevlsn == prevlsn,
            r.insert.redo == redo,
            r.insert.curtimeline == tli,
            r.insert.wal_buff_max_size == wal_buff_max_size,
            r.insert.wal_file_max_size == wal_file_max_size,
            r.write.spec_mark() == lsn,
            r.flush.spec_mark() == lsn,
            r.log() == Seq::<u8>::empty(),
            r.log_start() == lsn,
    {
        let file = WalFileMem { tli, start_lsn: lsn, data: Vec::new() };
        let mut files = Vec::new();
        files.push(file);
        let r = GlobalStateExt {
            redo,
            insert: InsertState {
                curtimeline: tli,
                wal_buff_max_size,
                wal_file_max_size,
                redo,
                buf: Vec::new(),
                buflsn: lsn,
                prevlsn,
                bufsize: 0,
                forcesync: false,
                file: Some(lsn),
            },
            write: ProgressTracker::new(lsn),
            flush: ProgressTracker::new(lsn),
            files,
        };
        proof {
            assert(bufs_view(r.insert.buf@) =~= Seq::<Seq<u8>>::empty());
            assert(r.files@.map_values(|f: WalFileMem| f.data@) =~= seq![Seq::<u8>::empty()]);
            seq![Seq::<u8>::empty()].lemma_flatten_one_element();
            assert(r.log() =~= Seq::<u8>::empty());
        }
        r
    }

    /// The current write high-water mark.
    pub fn write_mark(&self) -> (r: u64)
        ensures
            r == self.write.spec_mark(),
    {
        self.write.get()
    }

    /// The current flush high-water mark.
    pub fn flush_mark(&self) -> (r: u64)
        ensures
            r == self.flush.spec_mark(),
    {
        self.flush.get()
    }

    /// Carries a write request out against the active (last) segment file
    /// and reports the range written.
    fn write_req(&mut self, wreq: InsertWriteReq)
        requires
            old(self).files@.len() > 0,
            old(self).files@.last().start_lsn == wreq.file_start_lsn,
            wreq.file_start_lsn + old(self).files@.last().data@.len() == wreq.buflsn,
            wreq.bytes().len() > 0,
            wreq.buflsn + wreq.bytes().len() <= u64::MAX,
            old(self).write.wf(),
            old(self).write.spec_mark() == wreq.buflsn,
            forall|p: int| old(self).write.covers(p) <==> p < old(self).write.spec_mark(),
        ensures
            final(self).files@.len() == old(self).files@.len(),
            final(self).files@.drop_last() == old(self).files@.drop_last(),
            final(self).files@.last().start_lsn == wreq.file_start_lsn,
            final(self).files@.last().tli == old(self).files@.last().tli,
            final(self).files@.last().data@ == old(self).files@.last().data@ + wreq.bytes(),
            files_bytes(final(self).files@) == files_bytes(old(self).files@) + wreq.bytes(),
            final(self).write.wf(),
            final(self).write.spec_mark() == wreq.buflsn + wreq.bytes().len(),
            forall|p: int| final(self).write.covers(p) <==> p < final(self).write.spec_mark(),
            final(self).insert == old(self).insert,
            final(self).flush == old(self).flush,
            final(self).redo == old(self).redo,
    {
        let InsertWriteReq { mut buf, record, buflsn, file_start_lsn } = wreq;
        let ghost wbytes = wreq.bytes();
        let mut f = self.files.pop().unwrap();
        let ghost f0 = f;
        proof {
            assert(f.data@ + bufs_view(buf@).flatten() + spec_rec_bytes(record) =~= f0.data@
                + wbytes);
        }
        while buf.len() > 0
            invariant
                f.start_lsn == f0.start_lsn,
                f.tli == f0.tli,
                f0.data@ + wbytes == f.data@ + bufs_view(buf@).flatten() + spec_rec_bytes(record),
            decreases buf@.len(),
        {
            let ghost prebuf = buf@;
            let ghost predata = f.data@;
            let mut b = buf.remove(0);
            let ghost bview = b@;
            f.data.append(&mut b);
            proof {
                assert(bufs_view(prebuf) =~= seq![bview] + bufs_view(buf@));
                assert((seq![bview] + bufs_view(buf@)).drop_first() =~= bufs_view(buf@));
                assert(bufs_view(prebuf).flatten() == bview + bufs_view(buf@).flatten());
                assert(predata + (bview + bufs_view(buf@).flatten()) + spec_rec_bytes(record)
                    =~= f.data@ + bufs_view(buf@).flatten() + spec_rec_bytes(record));
            }
        }
        proof {
            assert(bufs_view(buf@).flatten() == Seq::<u8>::empty());
        }
        match record {
            Some(mut r) => {
                f.data.append(&mut r);
            },
            None => {},
        }
        proof {
            assert(f.data@ =~= f0.data@ + wbytes);
        }
        let end_lsn = file_start_lsn + (f.data.len() as u64);
        self.files.push(f);
        let _ = self.write.done(buflsn, end_lsn);
        proof {
            assert(self.write.spec_mark() == end_lsn) by {
                if self.write.spec_mark() > end_lsn {
                    assert(self.write.covers(self.write.spec_mark() - 1));
                }
            }
            assert forall|p: int| self.write.covers(p) <==> p < self.write.spec_mark() by {}
            assert(self.files@.drop_last() =~= old(self).files@.drop_last());
            lemma_files_bytes_last(old(self).files@, self.files@, wbytes);
        }
    }

    /// Completes a segment rotation: flushes the tail of the detached
    /// (fully written) file — in a concurrent deployment this runs when
    /// the last handle to the file is dropped — and opens the next
    /// segment at `retlsn`.
    fn finish_file_and_create(&mut self, tli: TimeLineID, retlsn: Lsn)
        requires
            old(self).insert.wf(),
            old(self).insert.file is None,
            !old(self).insert.forcesync,
            old(self).insert.buflsn == retlsn,
            old(self).insert.bufsize == 0,
            old(self).insert.buf@.len() == 0,
            old(self).insert.curtimeline == tli,
            old(self).redo == old(self).insert.redo,
            old(self).files@.len() > 0,
            old(self).files@[0].start_lsn > 0,
            old(self).files@.last().start_lsn + old(self).files@.last().data@.len() == retlsn,
            old(self).files@.last().start_lsn < retlsn,
            files_bytes(old(self).files@).len() == retlsn - old(self).log_start(),
            old(self).write.wf(),
            old(self).write.spec_mark() == retlsn,
            forall|p: int| old(self).write.covers(p) <==> p < old(self).write.spec_mark(),
            old(self).flush.wf(),
            old(self).flush.spec_mark() >= old(self).files@.last().start_lsn,
            old(self).flush.spec_mark() <= retlsn,
            forall|p: int| old(self).flush.covers(p) <==> p < old(self).flush.spec_mark(),
        ensures
            final(self).wf(),
            final(self).insert == (InsertState { file: Some(retlsn), ..old(self).insert }),
            final(self).log() == old(self).log(),
            final(self).log_start() == old(self).log_start(),
            final(self).write == old(self).write,
            final(self).flush.spec_mark() == retlsn,
            final(self).redo == old(self).redo,
            final(self).files@.len() == old(self).files@.len() + 1,
            final(self).files@.last().start_lsn == retlsn,
            final(self).files@.last().data@.len() == 0,
    {
        let fl = self.files[self.files.len() - 1].start_lsn;
        // The dropped handle waits until its own bytes are written, then
        // syncs; in this model the write mark is already there.
        let _ = self.flush.done(fl, retlsn);
        proof {
            assert(self.flush.spec_mark() == retlsn) by {
                if self.flush.spec_mark() > retlsn {
                    assert(self.flush.covers(self.flush.spec_mark() - 1));
                }
            }
            assert forall|p: int| self.flush.covers(p) <==> p < self.flush.spec_mark() by {}
        }
        let file = WalFileMem { tli, start_lsn: retlsn, data: Vec::new() };
        self.files.push(file);
        self.insert.file = Some(retlsn);
        proof {
            assert(self.files@.drop_last() =~= old(self).files@);
            lemma_files_bytes_last_push(old(self).files@, self.files@);
            assert(self.log() =~= old(self).log());
        }
    }

    /// Appends `r` to the log and returns the LSN at which the record's
    /// next record will begin. The record's `prev` back-link and final CRC
    /// are stamped here; the buffer is written out, and the segment
    /// rotated, as the record's position demands.
    pub fn insert_record(&mut self, r: Vec<u8>) -> (lsn: Lsn)
        requires
            old(self).wf(),
            RECHDRLEN <= r@.len(),
            old(self).insert.spec_nextlsn() + r@.len() <= u64::MAX,
            old(self).insert.bufsize + r@.len() <= usize::MAX,
        ensures
            final(self).wf(),
            lsn == old(self).insert.spec_nextlsn() + r@.len(),
            final(self).insert.spec_nextlsn() == lsn,
            final(self).insert.prevlsn == Some(old(self).insert.spec_nextlsn() as u64),
            final(self).log() == old(self).log() + spec_fill_prev(r@, old(self).insert.prevlsn),
            final(self).log_start() == old(self).log_start(),
            final(self).write.spec_mark() >= old(self).write.spec_mark(),
            final(self).flush.spec_mark() >= old(self).flush.spec_mark(),
            final(self).insert.redo == old(self).insert.redo,
            final(self).insert.curtimeline == old(self).insert.curtimeline,
            final(self).insert.wal_buff_max_size == old(self).insert.wal_buff_max_size,
            final(self).insert.wal_file_max_size == old(self).insert.wal_file_max_size,
            // Crossing the segment-size boundary rotates: a fresh empty
            // segment starting at the returned LSN becomes the active
            // file, and the old one is fully flushed first.
            lsn - old(self).insert.file.unwrap() >= old(self).insert.wal_file_max_size ==> {
                &&& final(self).insert.file == Some(lsn)
                &&& final(self).files@.len() == old(self).files@.len() + 1
                &&& final(self).files@.last().start_lsn == lsn
                &&& final(self).files@.last().data@.len() == 0
                &&& final(self).flush.spec_mark() == lsn
            },
            lsn - old(self).insert.file.unwrap() < old(self).insert.wal_file_max_size ==> {
                &&& final(self).insert.file == old(self).insert.file
                &&& final(self).files@.len() == old(self).files@.len()
            },
    {
        proof {
            crate::rec::lemma_fill_prev_len(r@, old(self).insert.prevlsn);
        }
        self.redo = self.insert.redo;
        let ret = self.insert.insert(r);
        match ret {
            InsertRet::NoAction(lsn) => {
                proof {
                    lemma_log_push(*old(self), *self, spec_fill_prev(r@, old(self).insert.prevlsn));
                }
                lsn
            },
            InsertRet::Write(lsn, wreq) => {
                let ghost finished = spec_fill_prev(r@, old(self).insert.prevlsn);
                proof {
                    lemma_wreq_bytes(wreq, old(self).insert.buf@, finished, old(self).insert.bufsize as int);
                }
                self.write_req(wreq);
                proof {
                    lemma_first_file_unchanged(old(self).files@, self.files@);
                    assert(bufs_view(self.insert.buf@).flatten() == Seq::<u8>::empty());
                    assert(self.log() =~= old(self).log() + finished);
                }
                lsn
            },
            InsertRet::WriteAndCreate { tli, retlsn, wreq } => {
                let ghost finished = spec_fill_prev(r@, old(self).insert.prevlsn);
                proof {
                    lemma_wreq_bytes(wreq, old(self).insert.buf@, finished, old(self).insert.bufsize as int);
                }
                self.write_req(wreq);
                proof {
                    lemma_first_file_unchanged(old(self).files@, self.files@);
                    assert(bufs_view(self.insert.buf@).flatten() == Seq::<u8>::empty());
                }
                self.finish_file_and_create(tli, retlsn);
                proof {
                    assert(self.log() =~= old(self).log() + finished);
                }
                retlsn
            },
        }
    }

    /// As `insert_record`, unless the page the record protects was already
    /// covered by the last checkpoint (`page_lsn` at or below the redo
    /// point): then nothing is inserted and no LSN is returned.
    pub fn try_insert_record(&mut self, r: Vec<u8>, page_lsn: Lsn) -> (ret: Option<Lsn>)
        requires
            old(self).wf(),
            RECHDRLEN <= r@.len(),
            old(self).insert.spec_nextlsn() + r@.len() <= u64::MAX,
            old(self).insert.bufsize + r@.len() <= usize::MAX,
        ensures
            final(self).wf(),
            ret is None <==> page_lsn <= old(self).insert.redo,
            ret is None ==> *final(self) == *old(self),
            ret matches Some(lsn) ==> {
                &&& lsn == old(self).insert.spec_nextlsn() + r@.len()
                &&& final(self).insert.spec_nextlsn() == lsn
                &&& final(self).insert.prevlsn == Some(old(self).insert.spec_nextlsn() as u64)
                &&& final(self).log() == old(self).log() + spec_fill_prev(
                    r@,
                    old(self).insert.prevlsn,
                )
                &&& final(self).log_start() == old(self).log_start()
                &&& final(self).insert.redo == old(self).insert.redo
            },
    {
        if page_lsn <= self.insert.redo {
            return None;
        }
        Some(self.insert_record(r))
    }

    /// Returns once every log byte below `lsn` is durable: on return both
    /// the flush mark and the write mark are at or past `lsn`.
    pub fn fsync(&mut self, lsn: Lsn)
        requires
            old(self).wf(),
            lsn <= old(self).insert.spec_nextlsn(),
        ensures
            final(self).wf(),
            final(self).flush.spec_mark() >= lsn,
            final(self).write.spec_mark() >= lsn,
            final(self).flush.spec_mark() >= old(self).flush.spec_mark(),
            final(self).write.spec_mark() >= old(self).write.spec_mark(),
            final(self).log() == old(self).log(),
            final(self).log_start() == old(self).log_start(),
            final(self).insert.spec_nextlsn() == old(self).insert.spec_nextlsn(),
            final(self).insert.prevlsn == old(self).insert.prevlsn,
            final(self).insert.redo == old(self).insert.redo,
    {
        if lsn <= self.flush.get() {
            return ;
        }
        self.redo = self.insert.redo;
        let fl = match self.insert.file {
            Some(fl) => fl,
            None => {
                proof {
                    assert(false);
                }
                0
            },
        };
        if lsn <= fl {
            // Everything below the active file's start was flushed when
            // the previous segments were closed.
            return ;
        }
        if lsn <= self.insert.buflsn {
            // The target is written but possibly not yet synced: sync the
            // active file up to the target.
            let _ = self.flush.done(fl, lsn);
            proof {
                assert(self.flush.spec_mark() <= self.write.spec_mark()) by {
                    if self.flush.spec_mark() > self.write.spec_mark() {
                        assert(self.flush.covers(self.flush.spec_mark() - 1));
                    }
                }
                assert forall|p: int| self.flush.covers(p) <==> p < self.flush.spec_mark() by {}
            }
            return ;
        }
        // The target is still buffered: write the buffer out, then sync.
        let nxt = self.insert.nextlsn();
        let ghost oldbufsize = self.insert.bufsize as int;
        let wreq = self.insert.swap_buff(fl, None, nxt);
        proof {
            lemma_wreq_none_bytes(wreq, old(self).insert.buf@, oldbufsize);
        }
        self.write_req(wreq);
        proof {
            lemma_first_file_unchanged(old(self).files@, self.files@);
            assert(bufs_view(self.insert.buf@).flatten() == Seq::<u8>::empty());
            assert(self.log() =~= old(self).log());
        }
        let _ = self.flush.done(fl, lsn);
        proof {
            assert(self.flush.spec_mark() <= self.write.spec_mark()) by {
                if self.flush.spec_mark() > self.write.spec_mark() {
                    assert(self.flush.covers(self.flush.spec_mark() - 1));
                }
            }
            assert forall|p: int| self.flush.covers(p) <==> p < self.flush.spec_mark() by {}
        }
    }
}

/// Writing into the last file leaves the first file's start untouched.
proof fn lemma_first_file_unchanged(pre: Seq<WalFileMem>, post: Seq<WalFileMem>)
    requires
        pre.len() > 0,
        post.len() == pre.len(),
        post.drop_last() == pre.drop_last(),
        post.last().start_lsn == pre.last().start_lsn,
    ensures
        post[0].start_lsn == pre[0].start_lsn,
{
    if pre.len() > 1 {
        assert(post.subrange(0, post.len() - 1) == pre.subrange(0, pre.len() - 1));
        assert(post.subrange(0, post.len() - 1)[0] == post[0]);
        assert(pre.subrange(0, pre.len() - 1)[0] == pre[0]);
    }
}

/// Pushing a fresh empty file does not change the concatenated file bytes.
proof fn lemma_files_bytes_last_push(pre: Seq<WalFileMem>, post: Seq<WalFileMem>)
    requires
        post.len() == pre.len() + 1,
        post.drop_last() == pre,
        post.last().data@.len() == 0,
    ensures
        files_bytes(post) == files_bytes(pre),
{
    let mpre = pre.map_values(|f: WalFileMem| f.data@);
    let mpost = post.map_values(|f: WalFileMem| f.data@);
    assert(mpost =~= mpre.push(post.last().data@)) by {
        assert forall|i: int| 0 <= i < pre.len() implies post[i] == pre[i] by {
            assert(post.subrange(0, post.len() - 1) == pre);
            assert(post.subrange(0, post.len() - 1)[i] == post[i]);
        }
    }
    lemma_flatten_concat(mpre, seq![post.last().data@]);
    seq![post.last().data@].lemma_flatten_one_element();
    assert(mpre.push(post.last().data@) =~= mpre + seq![post.last().data@]);
    assert(files_bytes(post) =~= files_bytes(pre));
}

/// Queuing one more finished record appends its bytes to the log.
proof fn lemma_log_push(pre: GlobalStateExt, post: GlobalStateExt, finished: Seq<u8>)
    requires
        post.files@ == pre.files@,
        bufs_view(post.insert.buf@) == bufs_view(pre.insert.buf@).push(finished),
    ensures
        post.log() == pre.log() + finished,
{
    lemma_flatten_concat(bufs_view(pre.insert.buf@), seq![finished]);
    seq![finished].lemma_flatten_one_element();
    assert(bufs_view(post.insert.buf@) =~= bufs_view(pre.insert.buf@) + seq![finished]);
    assert(post.log() =~= pre.log() + finished);
}

/// The bytes of a write request that carries the queued buffers and one
/// trailing record.
proof fn lemma_wreq_bytes(
    wreq: InsertWriteReq,
    prebuf: Seq<Vec<u8>>,
    finished: Seq<u8>,
    prebufsize: int,
)
    requires
        bufs_view(wreq.buf@) == bufs_view(prebuf),
        wreq.record matches Some(rr) && rr@ == finished,
        bufs_view(prebuf).flatten().len() == prebufsize,
    ensures
        wreq.bytes() == bufs_view(prebuf).flatten() + finished,
        wreq.bytes().len() == prebufsize + finished.len(),
{
}

/// The bytes of a write request that carries the queued buffers alone.
proof fn lemma_wreq_none_bytes(wreq: InsertWriteReq, prebuf: Seq<Vec<u8>>, prebufsize: int)
    requires
        bufs_view(wreq.buf@) == bufs_view(prebuf),
        wreq.record is None,
        bufs_view(prebuf).flatten().len() == prebufsize,
    ensures
        wreq.bytes() == bufs_view(prebuf).flatten(),
        wreq.bytes().len() == prebufsize,
    {
        assert(wreq.bytes() =~= bufs_view(prebuf).flatten());
    }

/// The bytes of the optional trailing record of a write request.
pub open spec fn spec_rec_bytes(record: Option<Vec<u8>>) -> Seq<u8> {
    match record {
        Some(r) => r@,
        None => Seq::<u8>::empty(),
    }
}

/// Extending the last file's data extends the concatenated file bytes.
proof fn lemma_files_bytes_last(pre: Seq<WalFileMem>, post: Seq<WalFileMem>, added: Seq<u8>)
    requires
        pre.len() > 0,
        post.len() == pre.len(),
        post.drop_last() == pre.drop_last(),
        post.last().data@ == pre.last().data@ + added,
    ensures
        files_bytes(post) == files_bytes(pre) + added,
{
    let mpre = pre.map_values(|f: WalFileMem| f.data@);
    let mpost = post.map_values(|f: WalFileMem| f.data@);
    assert forall|i: int| 0 <= i < post.len() - 1 implies post[i] == pre[i] by {
        assert(post.drop_last() == pre.drop_last());
        assert(post.subrange(0, post.len() - 1) == pre.subrange(0, pre.len() - 1));
        assert(post.subrange(0, post.len() - 1)[i] == post[i]);
        assert(pre.subrange(0, pre.len() - 1)[i] == pre[i]);
    }
    assert(mpre =~= mpre.drop_last().push(pre.last().data@));
    assert(mpost =~= mpre.drop_last().push(post.last().data@));
    lemma_flatten_concat(mpre.drop_last(), seq![pre.last().data@]);
    lemma_flatten_concat(mpre.drop_last(), seq![post.last().data@]);
    seq![pre.last().data@].lemma_flatten_one_element();
    seq![post.last().data@].lemma_flatten_one_element();
    assert(mpre.drop_last().push(pre.last().data@) =~= mpre.drop_last() + seq![pre.last().data@]);
    assert(mpre.drop_last().push(post.last().data@) =~= mpre.drop_last() + seq![
        post.last().data@,
    ]);
    assert(files_bytes(post) =~= files_bytes(pre) + added);
}


/// The sixteen hexadecimal digit characters.
pub open spec fn spec_hex_digit(d: u8) -> char {
    if d == 0 {
        '0'
    } else if d == 1 {
        '1'
    } else if d == 2 {
        '2'
    } else if d == 3 {
        '3'
    } else if d == 4 {
        '4'
    } else if d == 5 {
        '5'
    } else if d == 6 {
        '6'
    } else if d == 7 {
        '7'
    } else if d == 8 {
        '8'
    } else if d == 9 {
        '9'
    } else if d == 10 {
        'A'
    } else if d == 11 {
        'B'
    } else if d == 12 {
        'C'
    } else if d == 13 {
        'D'
    } else if d == 14 {
        'E'
    } else {
        'F'
    }
}

fn hex_digit_str(d: u8) -> (r: &'static str)
    requires
        d < 16,
    ensures
        r@ == seq![spec_hex_digit(d)],
{
    if d == 0 {
        proof {
            reveal_strlit("0");
            assert("0"@ =~= seq![spec_hex_digit(0)]);
        }
        "0"
    } else if d == 1 {
        proof {
            reveal_strlit("1");
            assert("1"@ =~= seq![spec_hex_digit(1)]);
        }
        "1"
    } else if d == 2 {
        proof {
            reveal_strlit("2");
            assert("2"@ =~= seq![spec_hex_digit(2)]);
        }
        "2"
    } else if d == 3 {
        proof {
            reveal_strlit("3");
            assert("3"@ =~= seq![spec_hex_digit(3)]);
        }
        "3"
    } else if d == 4 {
        proof {
            reveal_strlit("4");
            assert("4"@ =~= seq![spec_hex_digit(4)]);
        }
        "4"
    } else if d == 5 {
        proof {
            reveal_strlit("5");
            assert("5"@ =~= seq![spec_hex_digit(5)]);
        }
        "5"
    } else if d == 6 {
        proof {
            reveal_strlit("6");
            assert("6"@ =~= seq![spec_hex_digit(6)]);
        }
        "6"
    } else if d == 7 {
        proof {
            reveal_strlit("7");
            assert("7"@ =~= seq![spec_hex_digit(7)]);
        }
        "7"
    } else if d == 8 {
        proof {
            reveal_strlit("8");
            assert("8"@ =~= seq![spec_hex_digit(8)]);
        }
        "8"
    } else if d == 9 {
        proof {
            reveal_strlit("9");
            assert("9"@ =~= seq![spec_hex_digit(9)]);
        }
        "9"
    } else if d == 10 {
        proof {
            reveal_strlit("A");
            assert("A"@ =~= seq![spec_hex_digit(10)]);
        }
        "A"
    } else if d == 11 {
        proof {
            reveal_strlit("B");
            assert("B"@ =~= seq![spec_hex_digit(11)]);
        }
        "B"
    } else if d == 12 {
        proof {
            reveal_strlit("C");
            assert("C"@ =~= seq![spec_hex_digit(12)]);
        }
        "C"
    } else if d == 13 {
        proof {
            reveal_strlit("D");
            assert("D"@ =~= seq![spec_hex_digit(13)]);
        }
        "D"
    } else if d == 14 {
        proof {
            reveal_strlit("E");
            assert("E"@ =~= seq![spec_hex_digit(14)]);
        }
        "E"
    } else {
        proof {
            reveal_strlit("F");
            assert("F"@ =~= seq![spec_hex_digit(15)]);
        }
        "F"
    }
}

/// The nibble of `v` that the `i`-th hex digit shows, most significant
/// first.
pub open spec fn spec_nib32(v: u32, i: int) -> u8 {
    ((v >> ((28 - 4 * i) as u32)) & 0xf) as u8
}

pub open spec fn spec_nib64(v: u64, i: int) -> u8 {
    ((v >> ((60 - 4 * i) as u64)) & 0xf) as u8
}

/// `v` written as eight upper-case hex digits.
pub open spec fn spec_hex32(v: u32) -> Seq<char> {
    Seq::new(8, |i: int| spec_hex_digit(spec_nib32(v, i)))
}

/// `v` written as sixteen upper-case hex digits.
pub open spec fn spec_hex64(v: u64) -> Seq<char> {
    Seq::new(16, |i: int| spec_hex_digit(spec_nib64(v, i)))
}

fn push_hex32(out: &mut String, v: u32)
    ensures
        final(out)@ == old(out)@ + spec_hex32(v),
{
    let mut i: usize = 0;
    while i < 8
        invariant
            i <= 8,
            out@ == old(out)@ + spec_hex32(v).take(i as int),
        decreases 8 - i,
    {
        let sh: u32 = 28 - 4 * (i as u32);
        let d = ((v >> sh) & 0xf) as u8;
        proof {
            assert((v >> sh) & 0xf < 16) by (bit_vector);
        }
        out.append(hex_digit_str(d));
        proof {
            assert(old(out)@ + spec_hex32(v).take(i + 1) =~= (old(out)@ + spec_hex32(v).take(
                i as int,
            )) + seq![spec_hex_digit(spec_nib32(v, i as int))]);
        }
        i = i + 1;
    }
    proof {
        assert(spec_hex32(v).take(8) =~= spec_hex32(v));
    }
}

fn push_hex64(out: &mut String, v: u64)
    ensures
        final(out)@ == old(out)@ + spec_hex64(v),
{
    let mut i: usize = 0;
    while i < 16
        invariant
            i <= 16,
            out@ == old(out)@ + spec_hex64(v).take(i as int),
        decreases 16 - i,
    {
        let sh: u64 = 60 - 4 * (i as u64);
        let d = ((v >> sh) & 0xf) as u8;
        proof {
            assert((v >> sh) & 0xf < 16) by (bit_vector);
        }
        out.append(hex_digit_str(d));
        proof {
            assert(old(out)@ + spec_hex64(v).take(i + 1) =~= (old(out)@ + spec_hex64(v).take(
                i as int,
            )) + seq![spec_hex_digit(spec_nib64(v, i as int))]);
        }
        i = i + 1;
    }
    proof {
        assert(spec_hex64(v).take(16) =~= spec_hex64(v));
    }
}

/// The path of the segment file that starts at `lsn` on timeline `tli`:
/// the timeline as eight hex digits and the LSN as sixteen, under the WAL
/// directory.
pub fn wal_filepath(tli: TimeLineID, lsn: Lsn) -> (r: String)
    ensures
        r@ == "kb_wal/"@ + spec_hex32(tli) + spec_hex64(lsn) + ".wal"@,
{
    let mut s = String::from_str("kb_wal/");
    push_hex32(&mut s, tli);
    push_hex64(&mut s, lsn);
    s.append(".wal");
    proof {
        assert(s@ =~= "kb_wal/"@ + spec_hex32(tli) + spec_hex64(lsn) + ".wal"@);
    }
    s
}

} // verus!
