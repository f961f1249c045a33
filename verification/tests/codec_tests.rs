use kuiba::ckpt::{get_ckpt, new_ckpt_rec, Ckpt, Ctl, CKPTLEN, CTLLEN, CTL_CRC_OFF};
use kuiba::crc;
use kuiba::rec::{
    check_rec, fill_record_prev, finish_record, start_record, RmgrId, RECHDRLEN,
};
use kuiba::WalError;

fn sample_ckpt() -> Ckpt {
    Ckpt {
        redo: 0x0133F0E2,
        curtli: 1,
        prevtli: 1,
        nextxid: 42,
        nextoid: 10000,
        time: 1_600_000_000,
    }
}

#[test]
fn crc32c_known_value() {
    // The value the crc32c crate documents for this message.
    assert_eq!(crc::crc32c(b"Hello world!"), 0x7B_98_E7_51);
}

#[test]
fn crc32c_append_matches_whole() {
    let whole = crc::crc32c(b"abcdef");
    let part = crc::crc32c(b"abc");
    assert_eq!(crc::crc32c_append(part, b"def"), whole);
}

#[test]
fn record_round_trip() {
    let body: Vec<u8> = (0..64u8).collect();
    let mut rec = start_record(&body);
    assert_eq!(rec.len(), RECHDRLEN + 64);
    finish_record(&mut rec, RmgrId::Xact, 0x20, Some(7));
    fill_record_prev(&mut rec, Some(0x0133F0E2));
    let (hdr, data) = check_rec(&rec).expect("round trip must validate");
    assert_eq!(hdr.totlen as usize, RECHDRLEN + 64);
    assert_eq!(hdr.info, 0x20);
    assert!(matches!(hdr.id, RmgrId::Xact));
    assert_eq!(hdr.xid, Some(7));
    assert_eq!(hdr.prev, Some(0x0133F0E2));
    assert_eq!(data, &body[..]);
}

#[test]
fn record_absent_fields_decode_as_none() {
    let body = [9u8; 10];
    let mut rec = start_record(&body);
    finish_record(&mut rec, RmgrId::Xlog, 0x10, None);
    fill_record_prev(&mut rec, None);
    let (hdr, _) = check_rec(&rec).expect("must validate");
    assert_eq!(hdr.xid, None);
    assert_eq!(hdr.prev, None);
    assert!(matches!(hdr.id, RmgrId::Xlog));
}

#[test]
fn record_corruption_is_caught() {
    let body = [3u8; 32];
    let mut rec = start_record(&body);
    finish_record(&mut rec, RmgrId::Xlog, 0x10, None);
    fill_record_prev(&mut rec, Some(99));
    // Flip one body byte: the CRC no longer matches.
    let last = rec.len() - 1;
    rec[last] ^= 0xff;
    match check_rec(&rec) {
        Err(WalError::BadCrc) => {}
        other => panic!("expected BadCrc, got {:?}", other.map(|_| ())),
    }
}

#[test]
fn record_too_small_is_caught() {
    let rec = vec![0u8; RECHDRLEN - 1];
    match check_rec(&rec) {
        Err(WalError::RecordTooSmall) => {}
        other => panic!("expected RecordTooSmall, got {:?}", other.map(|_| ())),
    }
}

#[test]
fn record_bad_length_is_caught() {
    let body = [1u8; 16];
    let mut rec = start_record(&body);
    finish_record(&mut rec, RmgrId::Xlog, 0x10, None);
    fill_record_prev(&mut rec, None);
    rec.push(0); // the length field now disagrees
    match check_rec(&rec) {
        Err(WalError::BadRecordLen) => {}
        other => panic!("expected BadRecordLen, got {:?}", other.map(|_| ())),
    }
}

#[test]
fn ckpt_round_trip() {
    let ckpt = sample_ckpt();
    let rec = new_ckpt_rec(&ckpt);
    assert_eq!(rec.len(), RECHDRLEN + CKPTLEN);
    let decoded = get_ckpt(&rec[RECHDRLEN..]);
    assert_eq!(decoded, ckpt);
}

#[test]
fn ctl_round_trip() {
    let ctl = Ctl::new(1_700_000_000, 0x0133F0E2, sample_ckpt());
    let blob = ctl.persist();
    assert_eq!(blob.len(), CTLLEN);
    let loaded = Ctl::load(&blob).expect("persisted control file must load");
    assert_eq!(loaded, ctl);
}

#[test]
fn ctl_rejects_wrong_length() {
    let ctl = Ctl::new(0, 1, sample_ckpt());
    let mut blob = ctl.persist();
    blob.pop();
    match Ctl::load(&blob) {
        Err(WalError::BadCtlLen) => {}
        other => panic!("expected BadCtlLen, got {:?}", other),
    }
}

#[test]
fn ctl_rejects_wrong_versions() {
    let ctl = Ctl::new(0, 1, sample_ckpt());
    let mut blob = ctl.persist();
    blob[0] ^= 1;
    match Ctl::load(&blob) {
        Err(WalError::BadCtlVer) => {}
        other => panic!("expected BadCtlVer, got {:?}", other),
    }
    let mut blob2 = ctl.persist();
    blob2[4] ^= 1;
    match Ctl::load(&blob2) {
        Err(WalError::BadCatVer) => {}
        other => panic!("expected BadCatVer, got {:?}", other),
    }
}

#[test]
fn ctl_rejects_bad_crc() {
    let ctl = Ctl::new(123, 456, sample_ckpt());
    let mut blob = ctl.persist();
    blob[CTL_CRC_OFF] ^= 0x55;
    match Ctl::load(&blob) {
        Err(WalError::BadCrc) => {}
        other => panic!("expected BadCrc, got {:?}", other),
    }
}

#[test]
fn record_unknown_rmgr_is_caught() {
    let body = [7u8; 8];
    let mut rec = start_record(&body);
    finish_record(&mut rec, RmgrId::Xlog, 0x10, None);
    fill_record_prev(&mut rec, None);
    // Patch in an id no resource manager owns, keeping the CRC valid so
    // only the id check can fail.
    rec[5] = 9;
    let crc = crc::crc32c(&rec[RECHDRLEN..]);
    let crc = crc::crc32c_append(crc, &rec[..22]);
    rec[22..26].copy_from_slice(&crc.to_le_bytes());
    match check_rec(&rec) {
        Err(WalError::BadRmgrId) => {}
        other => panic!("expected BadRmgrId, got {:?}", other.map(|_| ())),
    }
}
