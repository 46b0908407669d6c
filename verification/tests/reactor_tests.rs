use vortex::protocol::{
    encode_header, read_response_at, RequestHeader, OP_SEARCH, OP_UPSERT, STATUS_ERR, STATUS_OK,
    VBP_MAGIC, VBP_VERSION,
};
use vortex::reactor::{FlushReason, ShardCore};
use vortex::wal::{recover_scan, upsert_records};

fn make_frame(opcode: u8, request_id: u64, payload: &[u8]) -> Vec<u8> {
    let h = RequestHeader {
        magic: VBP_MAGIC,
        version: VBP_VERSION,
        opcode,
        payload_len: payload.len() as u32,
        request_id,
    };
    let mut out = encode_header(&h);
    out.extend_from_slice(payload);
    out
}

fn upsert_payload(id: u64, floats: &[f32]) -> Vec<u8> {
    let mut p = id.to_le_bytes().to_vec();
    for f in floats {
        p.extend_from_slice(&f.to_le_bytes());
    }
    p
}

/// Single upsert then search on one connection: the upsert is
/// acknowledged only after its batch write completes, the log write is
/// exactly one sector, and recovery replays exactly the one record.
#[test]
fn single_upsert_search() {
    let mut core = ShardCore::new(32, 0);
    let slot = core.on_accept().expect("a fresh core has a free slot");
    assert_eq!(slot, 0);

    // Upsert id=7, v=[1,0,0].
    let frame = make_frame(OP_UPSERT, 7, &upsert_payload(7, &[1.0, 0.0, 0.0]));
    let rep = core.on_read_complete(slot, &frame);
    assert!(!rep.closed);
    assert!(rep.write.is_none(), "no ack may be sent before the log write completes");

    // End of tick: the dirty batch flushes as one sector-aligned write.
    let req = core.flush_active_batch(FlushReason::Eot).expect("dirty batch flushes");
    assert_eq!(req.offset, 0);
    assert_eq!(req.bytes.len(), 4096);

    // The write completes: exactly one entry is applied and one ok
    // acknowledgment goes out.
    let batch = core.on_batch_complete();
    assert_eq!(batch.entries.len(), 1);
    assert_eq!(batch.writes.len(), 1);
    let ack_bytes = &batch.writes[0].bytes;
    assert_eq!(ack_bytes.len(), 16);
    let ack = read_response_at(ack_bytes, 0);
    assert_eq!(ack.magic, VBP_MAGIC);
    assert_eq!(ack.status, STATUS_OK);
    assert_eq!(ack.opcode, OP_UPSERT);
    let next = core.on_write_complete(slot, 16);
    assert!(next.is_none());

    // Search: answered immediately with an ok response echoing the id.
    let sframe = make_frame(OP_SEARCH, 8, &[0u8; 12]);
    let rep = core.on_read_complete(slot, &sframe);
    assert_eq!(rep.searches.len(), 1);
    assert_eq!(rep.searches[0].request_id, 8);
    let w = rep.write.expect("search response goes out at once");
    let resp = read_response_at(&w.bytes, 0);
    assert_eq!(resp.status, STATUS_OK);
    assert_eq!(resp.opcode, OP_SEARCH);
    assert_eq!(resp.request_id, 8);

    // Restart: recovery on the written image yields exactly id 7.
    let report = recover_scan(&req.bytes);
    assert_eq!(report.entries.len(), 1);
    let records = upsert_records(&report.entries);
    assert_eq!(records.len(), 1);
    assert_eq!(records[0].id, 7);
    assert_eq!(records[0].vector_bytes.len(), 12);
}

/// Reassembly under fragmentation: three upserts delivered one byte at a
/// time still produce three ok acknowledgments and one sector-rounded
/// batch.
#[test]
fn reassembly_under_tcp_fragmentation() {
    let mut core = ShardCore::new(32, 0);
    let slot = core.on_accept().unwrap();
    let mut stream = Vec::new();
    for id in 1..=3u64 {
        stream.extend_from_slice(&make_frame(OP_UPSERT, id, &upsert_payload(id, &[0.5, 0.5])));
    }
    for i in 0..stream.len() {
        let rep = core.on_read_complete(slot, &stream[i..i + 1]);
        assert!(!rep.closed);
    }
    let req = core.flush_active_batch(FlushReason::Eot).expect("three upserts staged");
    assert_eq!(req.bytes.len(), 4096, "one 4-KiB-rounded batch");
    let batch = core.on_batch_complete();
    assert_eq!(batch.entries.len(), 3);
    assert_eq!(batch.writes.len(), 1);
    let acks = &batch.writes[0].bytes;
    assert_eq!(acks.len(), 48, "three acknowledgments");
    for k in 0..3 {
        let r = read_response_at(acks, k * 16);
        assert_eq!(r.status, STATUS_OK);
        assert_eq!(r.opcode, OP_UPSERT);
    }
}

/// Group commit: a thousand pipelined upserts coalesce into far fewer
/// log writes, and every one of them is eventually acknowledged.
#[test]
fn group_commit() {
    let mut core = ShardCore::new(32, 0);
    let slot = core.on_accept().unwrap();
    let mut stream = Vec::new();
    for id in 0..1000u64 {
        stream.extend_from_slice(&make_frame(OP_UPSERT, id, &upsert_payload(id, &[1.0])));
    }
    let rep = core.on_read_complete(slot, &stream);
    assert!(!rep.closed);

    let mut flushes = 0usize;
    let mut acks = 0usize;
    let mut guard = 0;
    while acks < 1000 {
        guard += 1;
        assert!(guard < 10000, "acknowledgments must eventually drain");
        if core.should_flush_eot() {
            let _req = core.flush_active_batch(FlushReason::Eot).unwrap();
            flushes += 1;
            let batch = core.on_batch_complete();
            let infos: Vec<(usize, usize)> =
                batch.writes.iter().map(|w| (w.slot, w.bytes.len())).collect();
            for (s, l) in infos {
                acks += l / 16;
                let next = core.on_write_complete(s, l);
                assert!(next.is_none());
                let _ = core.process_ingress(s);
            }
            for s in batch.resume {
                let _ = core.process_ingress(s);
            }
        } else {
            let _ = core.process_ingress(slot);
        }
    }
    assert_eq!(acks, 1000, "exactly one acknowledgment per upsert");
    assert!(flushes <= 100, "group commit must coalesce: {} flushes", flushes);
}

/// Shard saturation: with 32 slots, the 33rd concurrent connection is
/// refused immediately and the first 32 keep working.
#[test]
fn shard_saturation() {
    let mut core = ShardCore::new(32, 0);
    let mut assigned = Vec::new();
    for _ in 0..32 {
        assigned.push(core.on_accept().expect("slots below the cap are granted"));
    }
    assert_eq!(assigned, (0..32).collect::<Vec<_>>());
    assert!(core.on_accept().is_none(), "the 33rd connection is refused");

    // The others still function: a search on the last slot is answered.
    let sframe = make_frame(OP_SEARCH, 5, &[0u8; 8]);
    let rep = core.on_read_complete(31, &sframe);
    assert_eq!(rep.searches.len(), 1);
    assert!(rep.write.is_some());
}

/// A protocol violation closes only the offending connection.
#[test]
fn bad_magic_closes_connection() {
    let mut core = ShardCore::new(4, 0);
    let a = core.on_accept().unwrap();
    let b = core.on_accept().unwrap();
    let rep = core.on_read_complete(a, &[0x11u8; 32]);
    assert!(rep.closed);
    // The other connection still answers.
    let sframe = make_frame(OP_SEARCH, 1, &[]);
    let rep = core.on_read_complete(b, &sframe);
    assert!(!rep.closed);
    assert_eq!(rep.searches.len(), 1);
}

/// An unknown opcode elicits an error response and keeps the connection.
#[test]
fn unknown_opcode_gets_error_status() {
    let mut core = ShardCore::new(4, 0);
    let slot = core.on_accept().unwrap();
    let frame = make_frame(0x42, 77, &[1, 2, 3]);
    let rep = core.on_read_complete(slot, &frame);
    assert!(!rep.closed);
    let w = rep.write.expect("error response goes out");
    let resp = read_response_at(&w.bytes, 0);
    assert_eq!(resp.status, STATUS_ERR);
    assert_eq!(resp.opcode, 0x42);
    assert_eq!(resp.request_id, 77);
}

/// Shutdown flushes the dirty batch and marks the shard stopping.
#[test]
fn shutdown_flushes_dirty_batch() {
    let mut core = ShardCore::new(4, 0);
    let slot = core.on_accept().unwrap();
    let frame = make_frame(OP_UPSERT, 1, &upsert_payload(1, &[2.0]));
    let _ = core.on_read_complete(slot, &frame);
    assert!(!core.is_stopping());
    let req = core.shutdown();
    assert!(core.is_stopping());
    assert!(req.is_some());
    let _ = core.on_batch_complete();
}

/// The log offset advances by exactly one aligned batch per flush.
#[test]
fn wal_offsets_advance_per_batch() {
    let mut core = ShardCore::new(4, 4096);
    let slot = core.on_accept().unwrap();
    let frame = make_frame(OP_UPSERT, 1, &upsert_payload(1, &[1.0]));
    let _ = core.on_read_complete(slot, &frame);
    let req1 = core.flush_active_batch(FlushReason::Full).unwrap();
    assert_eq!(req1.offset, 4096);
    let _ = core.on_batch_complete();
    let _ = core.on_read_complete(slot, &frame);
    let req2 = core.flush_active_batch(FlushReason::Eot).unwrap();
    assert_eq!(req2.offset, 4096 + req1.bytes.len() as u64);
}
