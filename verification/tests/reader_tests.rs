use kuiba::rec::{finish_record, start_record, RmgrId, RECHDRLEN};
use kuiba::walreader::{LocalWalStorage, WalReader, WalStorage};
use kuiba::WalError;

fn one_record(total: usize, info: u8) -> Vec<u8> {
    let body = vec![0x5au8; total - RECHDRLEN];
    let mut rec = start_record(&body);
    finish_record(&mut rec, RmgrId::Xlog, info, None);
    kuiba::rec::fill_record_prev(&mut rec, None);
    rec
}

#[test]
fn reader_walks_records_in_order() {
    let mut data = one_record(40, 0x10);
    data.extend_from_slice(&one_record(60, 0x10));
    let mut storage = LocalWalStorage::new();
    storage.add_file(String::from("seg1"), 1000, data);
    let mut reader = WalReader::new(storage, 1000);
    let (h1, b1) = reader.read_record().expect("first record");
    assert_eq!(h1.totlen, 40);
    assert_eq!(b1.len(), 40 - RECHDRLEN);
    assert_eq!(reader.readlsn, Some(1000));
    assert_eq!(reader.endlsn, 1040);
    let (h2, _) = reader.read_record().expect("second record");
    assert_eq!(h2.totlen, 60);
    assert_eq!(reader.endlsn, 1100);
    // Past the end of the durable log.
    match reader.read_record() {
        Err(WalError::NoWalFile) | Err(WalError::ShortRead) => {}
        other => panic!("expected the walk to stop, got {:?}", other.map(|(h, _)| h.totlen)),
    }
}

#[test]
fn reader_crosses_segment_boundaries() {
    let mut storage = LocalWalStorage::new();
    storage.add_file(String::from("seg1"), 1000, one_record(40, 0x10));
    storage.add_file(String::from("seg2"), 1040, one_record(30, 0x10));
    let mut reader = WalReader::new(storage, 1000);
    assert!(reader.read_record().is_ok());
    let (h2, _) = reader.read_record().expect("record in the next segment");
    assert_eq!(h2.totlen, 30);
}

#[test]
fn reader_stops_at_truncated_record() {
    let mut data = one_record(40, 0x10);
    data.truncate(30); // the tail of the record never made it to disk
    let mut storage = LocalWalStorage::new();
    storage.add_file(String::from("seg1"), 1000, data);
    let mut reader = WalReader::new(storage, 1000);
    match reader.read_record() {
        Err(WalError::ShortRead) => {}
        other => panic!("expected ShortRead, got {:?}", other.map(|(h, _)| h.totlen)),
    }
}

#[test]
fn reader_stops_at_corrupt_record() {
    let mut data = one_record(40, 0x10);
    data[39] ^= 1;
    let mut storage = LocalWalStorage::new();
    storage.add_file(String::from("seg1"), 1000, data);
    let mut reader = WalReader::new(storage, 1000);
    match reader.read_record() {
        Err(WalError::BadCrc) => {}
        other => panic!("expected BadCrc, got {:?}", other.map(|(h, _)| h.totlen)),
    }
}

#[test]
fn reader_reports_missing_segment() {
    let storage = LocalWalStorage::new();
    let mut reader = WalReader::new(storage, 1000);
    match reader.read_record() {
        Err(WalError::NoWalFile) => {}
        other => panic!("expected NoWalFile, got {:?}", other.map(|(h, _)| h.totlen)),
    }
}

#[test]
fn rescan_restarts_the_walk() {
    let mut storage = LocalWalStorage::new();
    storage.add_file(String::from("seg1"), 1000, one_record(40, 0x10));
    let mut reader = WalReader::new(storage, 1000);
    assert!(reader.read_record().is_ok());
    reader.rescan(1000);
    assert_eq!(reader.readlsn, None);
    assert_eq!(reader.endlsn, 1000);
    assert!(reader.read_record().is_ok());
    assert_eq!(reader.endtli(), 1);
}

#[test]
fn recycle_drops_old_segments() {
    let mut storage = LocalWalStorage::new();
    storage.add_file(String::from("seg1"), 1000, one_record(40, 0x10));
    storage.add_file(String::from("seg2"), 1040, one_record(30, 0x10));
    storage.recycle(1040).unwrap();
    assert_eq!(storage.find(1000), Ok(None), "the recycled segment is gone");
    match storage.find(1050) {
        Ok(Some(_)) => {}
        other => panic!("the live segment must remain, got {:?}", other),
    }
}
