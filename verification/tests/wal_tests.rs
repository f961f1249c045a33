use kuiba::progress::ProgressTracker;
use kuiba::rec::{check_rec, finish_record, start_record, RmgrId, RECHDRLEN};
use kuiba::wal::{wal_filepath, GlobalStateExt};
use kuiba::FIRST_REC_LSN;

/// A record whose total length is `total` bytes, header included.
fn make_record(total: usize, fill: u8) -> Vec<u8> {
    let body = vec![fill; total - RECHDRLEN];
    let mut rec = start_record(&body);
    finish_record(&mut rec, RmgrId::Xlog, 0x10, None);
    rec
}

fn fresh_wal(buff_max: usize, file_max: u64) -> GlobalStateExt {
    GlobalStateExt::new(1, FIRST_REC_LSN, None, FIRST_REC_LSN, buff_max, file_max)
}

#[test]
fn progress_tracker_merges_out_of_order() {
    let mut pt = ProgressTracker::new(100);
    assert_eq!(pt.get(), 100);
    // A later range first: the mark must not move.
    assert_eq!(pt.done(150, 200), None);
    assert_eq!(pt.get(), 100);
    // The gap closes: the mark jumps over both ranges.
    assert_eq!(pt.done(100, 150), Some(200));
    assert_eq!(pt.get(), 200);
    // Already-covered ranges change nothing.
    assert_eq!(pt.done(120, 180), None);
    assert_eq!(pt.get(), 200);
}

#[test]
fn progress_tracker_chains_adjacent_ranges() {
    let mut pt = ProgressTracker::new(0);
    assert_eq!(pt.done(10, 20), None);
    assert_eq!(pt.done(20, 30), None);
    assert_eq!(pt.done(5, 10), None);
    assert_eq!(pt.done(0, 5), Some(30));
}

#[test]
fn two_records_and_fsync() {
    // Two 64-byte records from a fresh log: the second insert returns
    // start + 128, and after fsync of that position the flush mark equals
    // it.
    let mut wal = fresh_wal(4096, 1 << 20);
    let l1 = wal.insert_record(make_record(64, 0xaa));
    assert_eq!(l1, FIRST_REC_LSN + 64);
    let l2 = wal.insert_record(make_record(64, 0xbb));
    assert_eq!(l2, FIRST_REC_LSN + 128);
    wal.fsync(l2);
    assert_eq!(wal.flush_mark(), l2);
    assert!(wal.write_mark() >= l2);
}

#[test]
fn flush_mark_never_passes_write_mark() {
    let mut wal = fresh_wal(4096, 1 << 20);
    let mut lsn = 0;
    for i in 0..10 {
        lsn = wal.insert_record(make_record(40, i as u8));
        assert!(wal.flush_mark() <= wal.write_mark());
    }
    wal.fsync(lsn);
    assert!(wal.flush_mark() <= wal.write_mark());
    assert!(wal.flush_mark() >= lsn);
}

#[test]
fn buffer_high_water_mark_triggers_write() {
    // A tiny buffer limit: the second record forces a write, advancing
    // the write mark without any fsync call.
    let mut wal = fresh_wal(100, 1 << 20);
    let _ = wal.insert_record(make_record(60, 1));
    assert_eq!(wal.write_mark(), FIRST_REC_LSN);
    let l2 = wal.insert_record(make_record(60, 2));
    assert_eq!(wal.write_mark(), l2);
}

#[test]
fn segment_rotation_opens_new_file() {
    // Insert until the segment-size boundary is crossed: a new file must
    // open at the overflow LSN, and the old file must be fully flushed
    // before anything else happens.
    let file_max: u64 = 256;
    let mut wal = fresh_wal(4096, file_max);
    assert_eq!(wal.files.len(), 1);
    let mut lsn = FIRST_REC_LSN;
    let mut inserted = 0u64;
    while inserted + 64 < file_max {
        lsn = wal.insert_record(make_record(64, 7));
        inserted += 64;
        assert_eq!(wal.files.len(), 1, "no rotation before the boundary");
    }
    // This record crosses the boundary.
    lsn = wal.insert_record(make_record(64, 8));
    assert_eq!(wal.files.len(), 2, "rotation must open a second file");
    assert_eq!(wal.files[1].start_lsn, lsn, "the new file starts at the overflow LSN");
    assert_eq!(wal.files[1].data.len(), 0);
    // The old file is complete and already flushed.
    assert_eq!(
        wal.files[0].start_lsn + wal.files[0].data.len() as u64,
        lsn,
        "the old file holds everything up to the overflow LSN"
    );
    assert_eq!(wal.flush_mark(), lsn, "the old file was fsynced before the new one accepts writes");
}

#[test]
fn inserted_records_read_back() {
    // LSN monotonicity and the prev chain, observed through the bytes the
    // log accumulated.
    let mut wal = fresh_wal(1 << 20, 1 << 20);
    let l1 = wal.insert_record(make_record(40, 1));
    let l2 = wal.insert_record(make_record(50, 2));
    let l3 = wal.insert_record(make_record(60, 3));
    assert!(l1 < l2 && l2 < l3);
    wal.fsync(l3);
    let data = &wal.files[0].data;
    let (h1, _) = check_rec(&data[0..40]).expect("first record");
    let (h2, _) = check_rec(&data[40..90]).expect("second record");
    let (h3, _) = check_rec(&data[90..150]).expect("third record");
    assert_eq!(h1.prev, None);
    assert_eq!(h2.prev, Some(FIRST_REC_LSN), "second record back-links the first");
    assert_eq!(h3.prev, Some(l1), "third record back-links the second");
    assert_eq!(h1.totlen, 40);
    assert_eq!(h2.totlen, 50);
    assert_eq!(h3.totlen, 60);
}

#[test]
fn try_insert_respects_redo_point() {
    let mut wal = fresh_wal(4096, 1 << 20);
    // A page at or below the redo point needs no new WAL.
    assert_eq!(wal.try_insert_record(make_record(40, 1), FIRST_REC_LSN), None);
    // A page past the redo point does.
    let r = wal.try_insert_record(make_record(40, 1), FIRST_REC_LSN + 1);
    assert_eq!(r, Some(FIRST_REC_LSN + 40));
}

#[test]
fn wal_filepath_format() {
    assert_eq!(wal_filepath(1, 0x0133F0E2), "kb_wal/00000001000000000133F0E2.wal");
    assert_eq!(wal_filepath(0xDEADBEEF, u64::MAX), "kb_wal/DEADBEEFFFFFFFFFFFFFFFFF.wal");
}
