use kuiba::clog::{Clog, XidStatus};
use kuiba::rec::{start_record, RmgrId};
use kuiba::rmgr::{RedoState, Rmgr, XlogRmgr};
use kuiba::wal;
use kuiba::walreader::{LocalWalStorage, WalReader};
use kuiba::xact::{
    xact_info_u8, xact_rec_bytes, GlobalStateExt, SessionState, Snapshot, TBlockState, TranEnv,
    XactError, XactInfo, XactRmgr, XID_STOP,
};
use kuiba::FIRST_REC_LSN;

fn fresh_env(nextxid: u64) -> TranEnv {
    TranEnv {
        xact: GlobalStateExt::new(nextxid, 0),
        wal: wal::GlobalStateExt::new(1, FIRST_REC_LSN, None, FIRST_REC_LSN, 4096, 1 << 20),
        clog: Clog::new(),
    }
}

/// Replays the durable prefix of the WAL into a fresh redo state.
fn replay(env: &wal::GlobalStateExt) -> RedoState {
    let durable = env.flush_mark();
    let mut storage = LocalWalStorage::new();
    for f in &env.files {
        let end = if durable > f.start_lsn {
            ((durable - f.start_lsn) as usize).min(f.data.len())
        } else {
            0
        };
        storage.add_file(
            wal::wal_filepath(f.tli, f.start_lsn),
            f.start_lsn,
            f.data[..end].to_vec(),
        );
    }
    let mut reader = WalReader::new(storage, FIRST_REC_LSN);
    let mut redo = RedoState::new(1, Clog::new());
    let mut xlog_rmgr = XlogRmgr::new();
    let mut xact_rmgr = XactRmgr::new();
    loop {
        match reader.read_record() {
            Ok((hdr, body)) => {
                let res = match hdr.id {
                    RmgrId::Xlog => xlog_rmgr.redo(&hdr, &body, &mut redo),
                    RmgrId::Xact => xact_rmgr.redo(&hdr, &body, &mut redo),
                };
                res.expect("replay of a validated record");
            }
            Err(_) => break,
        }
    }
    redo
}

#[test]
fn snapshot_literal_values() {
    // A snapshot with in-flight lower bound 5, xmax 4 and {7, 9} still
    // running besides the bound.
    let snap = Snapshot { xmin: 5, xmax: 4, xidset: vec![7, 9] };
    assert!(snap.is_running(5), "the xmin itself is running");
    assert!(snap.is_running(7), "a member of the xidset is running");
    assert!(snap.is_running(9));
    assert!(snap.is_running(10), "anything past xmax counts as running");
    assert!(!snap.is_running(4), "the xmax itself is not running");
    assert!(!snap.is_running(3), "below xmin everything is decided");
    // An xid above xmax is treated as running even when absent from the
    // xidset: visibility is decided by position, exactly as the predicate
    // in the visibility rule states.
    assert!(snap.is_running(6));
}

#[test]
fn snapshot_tracks_started_not_ended() {
    let mut g = GlobalStateExt::new(5, 0);
    let x5 = g.start_xid().unwrap();
    let x6 = g.start_xid().unwrap();
    let x7 = g.start_xid().unwrap();
    assert_eq!((x5, x6, x7), (5, 6, 7));
    g.end_xid(Some(6), None);
    let snap = g.get_snap();
    assert_eq!(snap.xmin, 5);
    assert_eq!(snap.xmax, 6);
    assert_eq!(snap.xidset, vec![7]);
    assert!(snap.is_running(5));
    assert!(!snap.is_running(6), "6 had ended when the snapshot was taken");
    assert!(snap.is_running(7));
    assert!(snap.is_running(8), "8 had not started yet");
}

#[test]
fn snapshot_of_idle_system_is_empty() {
    let mut g = GlobalStateExt::new(42, 0);
    let snap = g.get_snap();
    assert_eq!(snap.xmin, 42);
    assert_eq!(snap.xmax, 41);
    assert!(snap.xidset.is_empty());
}

#[test]
fn global_xmin_is_the_floor() {
    let mut g = GlobalStateExt::new(10, 0);
    let a = g.start_xid().unwrap();
    let _snap = g.get_snap(); // registers xmin = 10 in the bag
    let b = g.start_xid().unwrap();
    g.end_xid(Some(a), None); // 10 done, 11 still running, bag holds 10
    assert_eq!((a, b), (10, 11));
    assert_eq!(g.global_xmin(), 10, "the registered snapshot bound holds the floor");
    g.end_xid(None, Some(10)); // release the snapshot bound
    assert_eq!(g.global_xmin(), 11, "the in-flight xid is now the floor");
    g.end_xid(Some(b), None);
    assert_eq!(g.global_xmin(), 12, "nothing running: one past last completed");
}

#[test]
fn xid_allocation_refuses_wraparound() {
    let mut g = GlobalStateExt::new(XID_STOP - 1, 0);
    assert_eq!(g.start_xid(), Ok(XID_STOP - 1));
    assert_eq!(g.start_xid(), Err(XactError::XidExhausted));
}

#[test]
fn implicit_transaction_commits() {
    let mut env = fresh_env(100);
    let mut sess = SessionState::new(1111);
    sess.start_tran_cmd(&mut env).unwrap();
    assert_eq!(sess.xact.tranctx.block_state, TBlockState::Started);
    let xid = sess.xact.tranctx.xid.unwrap();
    assert_eq!(xid, 100);
    sess.commit_tran_cmd(&mut env, 2222).unwrap();
    assert_eq!(sess.xact.tranctx.block_state, TBlockState::Default);
    assert_eq!(env.clog.xid_status(xid), XidStatus::Committed);
    assert!(!sess.dead);
    // The commit record is durable: the flush mark covers it.
    assert!(env.wal.flush_mark() > FIRST_REC_LSN);
}

#[test]
fn explicit_block_commits_on_end() {
    let mut env = fresh_env(7);
    let mut sess = SessionState::new(1);
    // BEGIN;
    sess.start_tran_cmd(&mut env).unwrap();
    sess.begin_tran_block().unwrap();
    sess.commit_tran_cmd(&mut env, 10).unwrap();
    assert_eq!(sess.xact.tranctx.block_state, TBlockState::Inprogress);
    // a statement inside the block;
    sess.start_tran_cmd(&mut env).unwrap();
    sess.commit_tran_cmd(&mut env, 11).unwrap();
    assert_eq!(sess.xact.tranctx.block_state, TBlockState::Inprogress);
    // COMMIT;
    sess.start_tran_cmd(&mut env).unwrap();
    assert!(sess.end_tran_block().unwrap());
    sess.commit_tran_cmd(&mut env, 12).unwrap();
    assert_eq!(sess.xact.tranctx.block_state, TBlockState::Default);
    assert_eq!(env.clog.xid_status(7), XidStatus::Committed);
}

#[test]
fn rollback_aborts_the_block() {
    let mut env = fresh_env(7);
    let mut sess = SessionState::new(1);
    sess.start_tran_cmd(&mut env).unwrap();
    sess.begin_tran_block().unwrap();
    sess.commit_tran_cmd(&mut env, 10).unwrap();
    // ROLLBACK;
    sess.start_tran_cmd(&mut env).unwrap();
    sess.user_abort_tran_block().unwrap();
    assert_eq!(sess.xact.tranctx.block_state, TBlockState::AbortPending);
    sess.commit_tran_cmd(&mut env, 11).unwrap();
    assert_eq!(sess.xact.tranctx.block_state, TBlockState::Default);
    assert_eq!(env.clog.xid_status(7), XidStatus::Aborted);
    assert!(!sess.dead);
}

#[test]
fn error_inside_block_routes_through_abort() {
    let mut env = fresh_env(7);
    let mut sess = SessionState::new(1);
    sess.start_tran_cmd(&mut env).unwrap();
    sess.begin_tran_block().unwrap();
    sess.commit_tran_cmd(&mut env, 10).unwrap();
    // A statement fails: the session aborts the current transaction.
    sess.abort_cur_tran(&mut env, 11).unwrap();
    assert_eq!(sess.xact.tranctx.block_state, TBlockState::Abort);
    assert!(sess.is_aborted());
    assert_eq!(env.clog.xid_status(7), XidStatus::Aborted);
    // COMMIT after a failed block only cleans up.
    sess.start_tran_cmd(&mut env).unwrap();
    assert!(!sess.end_tran_block().unwrap());
    assert_eq!(sess.xact.tranctx.block_state, TBlockState::AbortEnd);
    sess.commit_tran_cmd(&mut env, 12).unwrap();
    assert_eq!(sess.xact.tranctx.block_state, TBlockState::Default);
}

#[test]
fn misplaced_commands_kill_the_session() {
    let mut env = fresh_env(7);
    let mut sess = SessionState::new(1);
    // COMMIT outside any command is fatal.
    assert_eq!(sess.commit_tran_cmd(&mut env, 5), Err(XactError::BadBlockState));
    assert!(sess.dead);
    let mut sess2 = SessionState::new(1);
    assert_eq!(sess2.end_tran_block(), Err(XactError::BadBlockState));
    assert!(sess2.dead);
    let mut sess3 = SessionState::new(1);
    assert_eq!(sess3.begin_tran_block(), Err(XactError::BadBlockState));
    assert!(sess3.dead);
    let mut sess4 = SessionState::new(1);
    assert_eq!(sess4.user_abort_tran_block(), Err(XactError::BadBlockState));
    assert!(sess4.dead);
}

#[test]
fn ckpt_delay_counts() {
    let mut g = GlobalStateExt::new(5, 0);
    assert!(!g.ckpt_is_delayed());
    g.start_delay_ckpt();
    assert!(g.ckpt_is_delayed());
    g.stop_delay_ckpt();
    assert!(!g.ckpt_is_delayed());
}

#[test]
fn commit_record_replays_to_committed_clog() {
    // A commit record is inserted and fsynced; the process dies before
    // the clog write. Replay finds the record and advances the clog.
    let mut env = fresh_env(50);
    let mut sess = SessionState::new(1);
    sess.start_tran_cmd(&mut env).unwrap();
    let xid = sess.xact.tranctx.xid.unwrap();
    let rec = start_record(&xact_rec_bytes(777));
    let lsn = sess.insert_record(
        &mut env.wal,
        RmgrId::Xact,
        xact_info_u8(XactInfo::Commit),
        rec,
    );
    env.wal.fsync(lsn);
    // Crash here: the clog was never written.
    let redo = replay(&env.wal);
    assert_eq!(redo.clog.xid_status(xid), XidStatus::Committed);
}

#[test]
fn unflushed_commit_record_replays_to_in_progress() {
    // Killed before the fsync: the record never reached the durable log,
    // so replay leaves the transaction undecided.
    let mut env = fresh_env(50);
    let mut sess = SessionState::new(1);
    sess.start_tran_cmd(&mut env).unwrap();
    let xid = sess.xact.tranctx.xid.unwrap();
    let rec = start_record(&xact_rec_bytes(777));
    let _ = sess.insert_record(
        &mut env.wal,
        RmgrId::Xact,
        xact_info_u8(XactInfo::Commit),
        rec,
    );
    // Crash here, before any fsync.
    let redo = replay(&env.wal);
    assert_eq!(redo.clog.xid_status(xid), XidStatus::InProgress);
}

#[test]
fn full_commit_is_durable_and_replayable() {
    // The regular commit path: after commit_tran_cmd the record is
    // durable, so a crash right after still replays to Committed.
    let mut env = fresh_env(50);
    let mut sess = SessionState::new(1);
    sess.start_tran_cmd(&mut env).unwrap();
    let xid = sess.xact.tranctx.xid.unwrap();
    sess.commit_tran_cmd(&mut env, 999).unwrap();
    assert_eq!(env.clog.xid_status(xid), XidStatus::Committed);
    let redo = replay(&env.wal);
    assert_eq!(redo.clog.xid_status(xid), XidStatus::Committed);
}

#[test]
fn xact_redo_writes_the_clog() {
    let mut redo = RedoState::new(1, Clog::new());
    let mut rmgr = XactRmgr::new();
    let hdr = kuiba::rec::RecordHdr {
        totlen: 34,
        info: xact_info_u8(XactInfo::Abort),
        id: RmgrId::Xact,
        xid: Some(9),
        prev: None,
    };
    rmgr.redo(&hdr, &xact_rec_bytes(5), &mut redo).unwrap();
    assert_eq!(redo.clog.xid_status(9), XidStatus::Aborted);
}

#[test]
fn xact_redo_refuses_bad_records() {
    let mut redo = RedoState::new(1, Clog::new());
    let mut rmgr = XactRmgr::new();
    let no_xid = kuiba::rec::RecordHdr {
        totlen: 34,
        info: xact_info_u8(XactInfo::Commit),
        id: RmgrId::Xact,
        xid: None,
        prev: None,
    };
    assert_eq!(rmgr.redo(&no_xid, &[], &mut redo), Err(kuiba::WalError::MissingXid));
    let bad_info = kuiba::rec::RecordHdr { info: 0x50, ..no_xid };
    let bad_info = kuiba::rec::RecordHdr { xid: Some(3), ..bad_info };
    assert_eq!(rmgr.redo(&bad_info, &[], &mut redo), Err(kuiba::WalError::BadInfo));
    assert_eq!(redo.clog.xid_status(3), XidStatus::InProgress);
}

#[test]
fn xlog_redo_adopts_the_checkpoint_nextxid() {
    let mut redo = RedoState::new(1, Clog::new());
    let mut rmgr = XlogRmgr::new();
    let ckpt = kuiba::ckpt::Ckpt {
        redo: 500,
        curtli: 1,
        prevtli: 1,
        nextxid: 77,
        nextoid: 1,
        time: 0,
    };
    let rec = kuiba::ckpt::new_ckpt_rec(&ckpt);
    let hdr = kuiba::rec::RecordHdr {
        totlen: rec.len() as u32,
        info: 0x10,
        id: RmgrId::Xlog,
        xid: None,
        prev: None,
    };
    rmgr.redo(&hdr, &rec[kuiba::rec::RECHDRLEN..], &mut redo).unwrap();
    assert_eq!(redo.nextxid, 77);
    let bad_info = kuiba::rec::RecordHdr { info: 0x20, ..hdr };
    assert_eq!(
        rmgr.redo(&bad_info, &rec[kuiba::rec::RECHDRLEN..], &mut redo),
        Err(kuiba::WalError::BadInfo)
    );
    assert_eq!(
        rmgr.redo(&hdr, &[0u8; 4], &mut redo),
        Err(kuiba::WalError::RecordTooSmall)
    );
}

#[test]
fn rmgr_names_and_descriptions() {
    let mut redo_hdr = kuiba::rec::RecordHdr {
        totlen: 34,
        info: xact_info_u8(XactInfo::Commit),
        id: RmgrId::Xact,
        xid: Some(1),
        prev: None,
    };
    let xact_rmgr = XactRmgr::new();
    assert_eq!(xact_rmgr.name(), "Transaction");
    assert_eq!(xact_rmgr.descstr(&redo_hdr, &[]), "COMMIT");
    redo_hdr.info = xact_info_u8(XactInfo::Abort);
    assert_eq!(xact_rmgr.descstr(&redo_hdr, &[]), "ABORT");
    let xlog_rmgr = XlogRmgr::new();
    assert_eq!(xlog_rmgr.name(), "XLOG");
    redo_hdr.info = 0x10;
    assert_eq!(xlog_rmgr.descstr(&redo_hdr, &[]), "CHECKPOINT");
}

#[test]
fn session_inserts_stamp_the_owned_xid() {
    let mut env = fresh_env(200);
    let mut sess = SessionState::new(1);
    sess.start_tran_cmd(&mut env).unwrap();
    let xid = sess.xact.tranctx.xid.unwrap();
    let rec = start_record(&[1, 2, 3, 4]);
    let lsn = sess.insert_record(&mut env.wal, RmgrId::Xlog, 0x10, rec);
    assert_eq!(sess.xact.last_rec_end, Some(lsn));
    env.wal.fsync(lsn);
    // The record in the log carries this session's xid.
    let data = &env.wal.files[0].data;
    let (hdr, body) = kuiba::rec::check_rec(&data[..data.len()]).unwrap();
    assert_eq!(hdr.xid, Some(xid));
    assert_eq!(body, &[1, 2, 3, 4]);
}

#[test]
fn session_try_insert_respects_redo_point() {
    let mut env = fresh_env(200);
    let mut sess = SessionState::new(1);
    sess.start_tran_cmd(&mut env).unwrap();
    let rec = start_record(&[5, 6]);
    let skipped = sess.try_insert_record(&mut env.wal, RmgrId::Xlog, 0x10, rec, FIRST_REC_LSN);
    assert_eq!(skipped, None, "a page at the redo point needs no new WAL");
    assert_eq!(sess.xact.last_rec_end, None);
    let rec = start_record(&[5, 6]);
    let done = sess.try_insert_record(
        &mut env.wal,
        RmgrId::Xlog,
        0x10,
        rec,
        FIRST_REC_LSN + 1,
    );
    assert!(done.is_some());
    assert_eq!(sess.xact.last_rec_end, done);
}

#[test]
fn misplaced_start_of_command_kills_the_session() {
    let mut env = fresh_env(7);
    let mut sess = SessionState::new(1);
    sess.start_tran_cmd(&mut env).unwrap();
    sess.begin_tran_block().unwrap();
    // A start-of-command in the Begin state is a fatal transition.
    assert_eq!(sess.start_tran_cmd(&mut env), Err(XactError::BadBlockState));
    assert!(sess.dead);
}
