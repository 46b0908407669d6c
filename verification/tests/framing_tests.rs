use vortex::framing::{parse_concat, FrameBuffer, FrameStep};
use vortex::protocol::{encode_header, RequestHeader, OP_SEARCH, OP_UPSERT, VBP_MAGIC, VBP_VERSION};

fn make_frame(opcode: u8, request_id: u64, payload: &[u8]) -> Vec<u8> {
    let h = RequestHeader {
        magic: VBP_MAGIC,
        version: VBP_VERSION,
        opcode,
        payload_len: payload.len() as u32,
        request_id,
    };
    let mut out = encode_header(&h);
    out.extend_from_slice(payload);
    out
}

/// Framing round trip under arbitrary fragmentation: three frames
/// concatenated and fed in many odd-sized pieces come back out as exactly
/// three frames, in order.
#[test]
fn reassembly_under_fragmentation() {
    let frames = [
        make_frame(OP_UPSERT, 1, &[1, 2, 3, 4, 5, 6, 7, 8, 9, 10, 11, 12]),
        make_frame(OP_SEARCH, 2, &[0xAA; 7]),
        make_frame(0x33, 3, &[]),
    ];
    let mut stream = Vec::new();
    for f in &frames {
        stream.extend_from_slice(f);
    }
    for chunk_len in [1usize, 2, 3, 5, 7, 11, 16, 64] {
        let mut buf = FrameBuffer::new(4096);
        let mut got = Vec::new();
        let mut at = 0;
        while at < stream.len() {
            let end = (at + chunk_len).min(stream.len());
            buf.receive(&stream[at..end]);
            at = end;
            loop {
                match buf.next_step() {
                    FrameStep::Ready(_) => {
                        got.push(buf.take_frame());
                    }
                    FrameStep::NeedMore => {
                        buf.compact();
                        break;
                    }
                    FrameStep::BadMagic => panic!("unexpected violation"),
                }
            }
        }
        assert_eq!(got.len(), 3, "chunk_len {}", chunk_len);
        assert_eq!(got[0].header.request_id, 1);
        assert_eq!(got[0].payload, vec![1, 2, 3, 4, 5, 6, 7, 8, 9, 10, 11, 12]);
        assert_eq!(got[1].header.request_id, 2);
        assert_eq!(got[1].header.opcode, OP_SEARCH);
        assert_eq!(got[2].header.request_id, 3);
        assert!(got[2].payload.is_empty());
    }
}

#[test]
fn bad_magic_is_reported() {
    let mut buf = FrameBuffer::new(256);
    let junk = [0x00u8; 23];
    buf.receive(&junk);
    assert_eq!(buf.next_step(), FrameStep::BadMagic);
}

#[test]
fn incomplete_frame_waits() {
    let frame = make_frame(OP_UPSERT, 9, &[7; 40]);
    let mut buf = FrameBuffer::new(256);
    buf.receive(&frame[..20]);
    assert_eq!(buf.next_step(), FrameStep::NeedMore);
    buf.receive(&frame[20..]);
    match buf.next_step() {
        FrameStep::Ready(h) => {
            assert_eq!(h.request_id, 9);
            assert_eq!(h.payload_len, 40);
        }
        other => panic!("expected a ready frame, got {:?}", other),
    }
}

#[test]
fn parse_concat_stops_at_padding() {
    let mut stream = make_frame(OP_UPSERT, 5, &[1; 20]);
    stream.extend_from_slice(&[0u8; 100]);
    let frames = parse_concat(&stream);
    assert_eq!(frames.len(), 1);
    assert_eq!(frames[0].header.request_id, 5);
}
