use vortex::batch::{BatchAccumulator, PAGE_SIZE};
use vortex::protocol::{encode_header, RequestHeader, OP_SEARCH, OP_UPSERT, VBP_MAGIC, VBP_VERSION};
use vortex::wal::{recover_scan, upsert_records, WalManager};

fn make_frame(opcode: u8, request_id: u64, payload: &[u8]) -> Vec<u8> {
    let h = RequestHeader {
        magic: VBP_MAGIC,
        version: VBP_VERSION,
        opcode,
        payload_len: payload.len() as u32,
        request_id,
    };
    let mut out = encode_header(&h);
    out.extend_from_slice(payload);
    out
}

fn upsert_payload(id: u64, floats: &[f32]) -> Vec<u8> {
    let mut p = id.to_le_bytes().to_vec();
    for f in floats {
        p.extend_from_slice(&f.to_le_bytes());
    }
    p
}

#[test]
fn wal_manager_offsets_advance() {
    let mut wal = WalManager::new(8192);
    assert_eq!(wal.current_offset(), 8192);
    let off = wal.write_entry(4096);
    assert_eq!(off, 8192);
    assert_eq!(wal.current_offset(), 12288);
    wal.truncate(4096);
    assert_eq!(wal.current_offset(), 4096);
}

/// Corruption recovery: three valid frames followed by garbage scan back
/// to exactly three entries, with the file to be truncated at the end of
/// the third frame.
#[test]
fn corruption_recovery() {
    let mut image = Vec::new();
    let mut expected_good = 0;
    for id in 1..=3u64 {
        let f = make_frame(OP_UPSERT, id, &upsert_payload(id, &[1.0, 0.0, 0.5]));
        expected_good += f.len();
        image.extend_from_slice(&f);
    }
    // 23 bytes of garbage whose magic cannot match.
    image.extend_from_slice(&[0x99u8; 23]);
    let report = recover_scan(&image);
    assert_eq!(report.entries.len(), 3);
    assert!(report.truncated);
    assert_eq!(report.good_offset, expected_good);
    // Replaying the recovered entries yields the three mutations.
    let records = upsert_records(&report.entries);
    assert_eq!(records.len(), 3);
    assert_eq!(records[0].id, 1);
    assert_eq!(records[2].id, 3);
    assert_eq!(records[0].vector_bytes.len(), 12);
}

/// Recovery idempotence: scanning the truncated image again yields the
/// same entries and reports a clean end.
#[test]
fn recovery_is_idempotent() {
    let mut image = Vec::new();
    for id in 10..14u64 {
        image.extend_from_slice(&make_frame(OP_UPSERT, id, &upsert_payload(id, &[0.25; 4])));
    }
    image.extend_from_slice(&[7u8; 9]);
    let first = recover_scan(&image);
    assert!(first.truncated);
    let truncated = &image[..first.good_offset];
    let second = recover_scan(truncated);
    assert!(!second.truncated);
    assert_eq!(second.good_offset, first.good_offset);
    assert_eq!(second.entries.len(), first.entries.len());
    for (a, b) in first.entries.iter().zip(second.entries.iter()) {
        assert_eq!(a.header, b.header);
        assert_eq!(a.payload, b.payload);
    }
}

#[test]
fn zero_padding_terminates_scan_cleanly() {
    let mut image = make_frame(OP_UPSERT, 42, &upsert_payload(42, &[1.0]));
    let pad = PAGE_SIZE - image.len();
    image.extend_from_slice(&vec![0u8; pad]);
    let report = recover_scan(&image);
    assert_eq!(report.entries.len(), 1);
    assert!(report.truncated);
    assert_eq!(report.good_offset, 28);
}

#[test]
fn replay_skips_non_upserts_and_short_payloads() {
    let mut image = Vec::new();
    image.extend_from_slice(&make_frame(OP_SEARCH, 1, &[0; 16]));
    image.extend_from_slice(&make_frame(OP_UPSERT, 2, &[0; 8]));
    image.extend_from_slice(&make_frame(OP_UPSERT, 3, &upsert_payload(3, &[2.0])));
    let report = recover_scan(&image);
    assert_eq!(report.entries.len(), 3);
    assert!(!report.truncated);
    let records = upsert_records(&report.entries);
    assert_eq!(records.len(), 1);
    assert_eq!(records[0].id, 3);
}

#[test]
fn batch_pads_to_sector_multiple() {
    let mut batch = BatchAccumulator::new();
    assert!(!batch.is_dirty());
    let frame = make_frame(OP_UPSERT, 77, &upsert_payload(77, &[0.0; 32]));
    batch.try_add(&frame, 4).unwrap();
    assert!(batch.is_dirty());
    assert!(batch.has_tags());
    let bytes = batch.prepare_flush();
    assert_eq!(bytes.len(), PAGE_SIZE);
    assert_eq!(&bytes[..frame.len()], &frame[..]);
    assert!(bytes[frame.len()..].iter().all(|&b| b == 0));
    let tags = batch.take_tags();
    assert_eq!(tags, vec![4]);
    assert!(!batch.has_tags());
    assert!(!batch.is_dirty());
}

#[test]
fn batch_rejects_overflow_and_keeps_state() {
    let mut batch = BatchAccumulator::new();
    let big = vec![1u8; 262144 + 1];
    assert!(batch.try_add(&big, 0).is_err());
    assert!(!batch.is_dirty());
    let small = vec![2u8; 100];
    assert!(batch.try_add(&small, 1).is_ok());
    // Filling up to capacity exactly still fits.
    let rest = vec![3u8; 262144 - 100];
    assert!(batch.try_add(&rest, 2).is_ok());
    let more = vec![4u8; 1];
    assert!(batch.try_add(&more, 3).is_err());
    batch.reset();
    assert!(!batch.is_dirty());
    assert!(!batch.has_tags());
}
