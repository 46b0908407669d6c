use vortex::protocol::{
    encode_header, encode_response, read_header_at, read_response_at, verify_header, HeaderError,
    RequestHeader, ResponseHeader, HEADER_LEN, OP_SEARCH, OP_UPSERT, STATUS_ERR, STATUS_OK,
    VBP_MAGIC, VBP_VERSION,
};

#[test]
fn header_round_trip() {
    let h = RequestHeader {
        magic: VBP_MAGIC,
        version: VBP_VERSION,
        opcode: OP_UPSERT,
        payload_len: 20,
        request_id: 7,
    };
    let bytes = encode_header(&h);
    assert_eq!(bytes.len(), HEADER_LEN);
    assert_eq!(bytes[0], 0x58);
    assert_eq!(bytes[1], 0x56);
    let back = read_header_at(&bytes, 0);
    assert_eq!(back, h);
}

#[test]
fn response_round_trip() {
    let h = ResponseHeader {
        magic: VBP_MAGIC,
        status: STATUS_OK,
        opcode: OP_SEARCH,
        payload_len: 0,
        request_id: 99,
    };
    let bytes = encode_response(&h);
    assert_eq!(bytes.len(), HEADER_LEN);
    let back = read_response_at(&bytes, 0);
    assert_eq!(back, h);
}

#[test]
fn verify_header_accepts_valid() {
    let h = RequestHeader {
        magic: VBP_MAGIC,
        version: VBP_VERSION,
        opcode: OP_SEARCH,
        payload_len: 512,
        request_id: u64::MAX,
    };
    let bytes = encode_header(&h);
    assert_eq!(verify_header(&bytes), Ok(h));
}

#[test]
fn verify_header_rejects_short_input() {
    let bytes = [0u8; 15];
    assert_eq!(verify_header(&bytes), Err(HeaderError::TooShort));
}

#[test]
fn verify_header_rejects_bad_magic() {
    let h = RequestHeader {
        magic: 0x1234,
        version: VBP_VERSION,
        opcode: OP_UPSERT,
        payload_len: 0,
        request_id: 1,
    };
    let bytes = encode_header(&h);
    assert_eq!(verify_header(&bytes), Err(HeaderError::BadMagic));
}

#[test]
fn status_codes_are_distinct() {
    assert_ne!(STATUS_OK, STATUS_ERR);
    assert_eq!(STATUS_OK, 0);
    assert_eq!(STATUS_ERR, 1);
}
