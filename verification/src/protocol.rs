//! The VORTEX Binary Protocol (VBP) wire format.
//!
//! Every request starts with a 16-byte header: a magic value, a version
//! byte, an opcode byte, a 32-bit little-endian payload length and a 64-bit
//! little-endian request identifier. Responses echo the same shape with a
//! status byte in place of the version.

use vstd::prelude::*;

verus! {

use vstd::slice::slice_index_get;

/// 'VX' in ASCII, little-endian: identifies VBP packets.
pub const VBP_MAGIC: u16 = 0x5658;

/// Protocol version carried in every request header.
pub const VBP_VERSION: u8 = 1;

/// Opcode for inserting or updating a vector.
pub const OP_UPSERT: u8 = 1;

/// Opcode for searching nearest neighbors.
pub const OP_SEARCH: u8 = 5;

/// Response status: success.
pub const STATUS_OK: u8 = 0;

/// Response status: failure.
pub const STATUS_ERR: u8 = 1;

/// Size of a request or response header on the wire.
pub const HEADER_LEN: usize = 16;

/// A 16-bit value read little-endian from two bytes.
#[verifier::opaque]
pub open spec fn le16(s: Seq<u8>) -> u16
    recommends
        s.len() == 2,
{
    (s[0] as u16) | ((s[1] as u16) << 8)
}

/// A 32-bit value read little-endian from four bytes.
#[verifier::opaque]
pub open spec fn le32(s: Seq<u8>) -> u32
    recommends
        s.len() == 4,
{
    (s[0] as u32) | ((s[1] as u32) << 8) | ((s[2] as u32) << 16) | ((s[3] as u32) << 24)
}

/// A 64-bit value read little-endian from eight bytes.
#[verifier::opaque]
pub open spec fn le64(s: Seq<u8>) -> u64
    recommends
        s.len() == 8,
{
    (s[0] as u64) | ((s[1] as u64) << 8) | ((s[2] as u64) << 16) | ((s[3] as u64) << 24) | ((
    s[4] as u64) << 32) | ((s[5] as u64) << 40) | ((s[6] as u64) << 48) | ((s[7] as u64) << 56)
}

/// The two little-endian bytes of a 16-bit value.
#[verifier::opaque]
pub open spec fn le16_bytes(x: u16) -> Seq<u8> {
    seq![(x & 0xff) as u8, ((x >> 8) & 0xff) as u8]
}

/// The four little-endian bytes of a 32-bit value.
#[verifier::opaque]
pub open spec fn le32_bytes(x: u32) -> Seq<u8> {
    seq![
        (x & 0xff) as u8,
        ((x >> 8) & 0xff) as u8,
        ((x >> 16) & 0xff) as u8,
        ((x >> 24) & 0xff) as u8,
    ]
}

/// The eight little-endian bytes of a 64-bit value.
#[verifier::opaque]
pub open spec fn le64_bytes(x: u64) -> Seq<u8> {
    seq![
        (x & 0xff) as u8,
        ((x >> 8) & 0xff) as u8,
        ((x >> 16) & 0xff) as u8,
        ((x >> 24) & 0xff) as u8,
        ((x >> 32) & 0xff) as u8,
        ((x >> 40) & 0xff) as u8,
        ((x >> 48) & 0xff) as u8,
        ((x >> 56) & 0xff) as u8,
    ]
}

/// Reading back the little-endian bytes of a value yields the value.
pub proof fn lemma_le16_roundtrip(x: u16)
    ensures
        le16_bytes(x).len() == 2,
        le16(le16_bytes(x)) == x,
{
    reveal(le16);
    reveal(le16_bytes);
    assert((((x & 0xff) as u8) as u16) | ((((x >> 8) & 0xff) as u8) as u16) << 8 == x)
        by (bit_vector);
}

/// Reading back the little-endian bytes of a value yields the value.
pub proof fn lemma_le32_roundtrip(x: u32)
    ensures
        le32_bytes(x).len() == 4,
        le32(le32_bytes(x)) == x,
{
    reveal(le32);
    reveal(le32_bytes);
    assert((((x & 0xff) as u8) as u32) | ((((x >> 8) & 0xff) as u8) as u32) << 8 | ((((x >> 16)
        & 0xff) as u8) as u32) << 16 | ((((x >> 24) & 0xff) as u8) as u32) << 24 == x)
        by (bit_vector);
}

/// Reading back the little-endian bytes of a value yields the value.
pub proof fn lemma_le64_roundtrip(x: u64)
    ensures
        le64_bytes(x).len() == 8,
        le64(le64_bytes(x)) == x,
{
    reveal(le64);
    reveal(le64_bytes);
    assert((((x & 0xff) as u8) as u64) | ((((x >> 8) & 0xff) as u8) as u64) << 8 | ((((x >> 16)
        & 0xff) as u8) as u64) << 16 | ((((x >> 24) & 0xff) as u8) as u64) << 24 | ((((x >> 32)
        & 0xff) as u8) as u64) << 32 | ((((x >> 40) & 0xff) as u8) as u64) << 40 | ((((x >> 48)
        & 0xff) as u8) as u64) << 48 | ((((x >> 56) & 0xff) as u8) as u64) << 56 == x)
        by (bit_vector);
}

/// The fixed layout of a VBP request header.
#[derive(Clone, Copy, Debug, PartialEq, Eq, Structural)]
pub struct RequestHeader {
    pub magic: u16,
    pub version: u8,
    pub opcode: u8,
    pub payload_len: u32,
    pub request_id: u64,
}

/// The fixed layout of a VBP response header. No payload follows it.
#[derive(Clone, Copy, Debug, PartialEq, Eq, Structural)]
pub struct ResponseHeader {
    pub magic: u16,
    pub status: u8,
    pub opcode: u8,
    pub payload_len: u32,
    pub request_id: u64,
}

/// Why a byte slice failed to validate as a request header.
#[derive(Clone, Copy, Debug, PartialEq, Eq, Structural)]
pub enum HeaderError {
    /// Fewer than `HEADER_LEN` bytes were given.
    TooShort,
    /// The first two bytes do not hold `VBP_MAGIC`.
    BadMagic,
}

/// The request header laid down at offset `i` of `s`, fields read
/// little-endian.
pub open spec fn spec_header_at(s: Seq<u8>, i: int) -> RequestHeader
    recommends
        0 <= i,
        i + HEADER_LEN <= s.len(),
{
    RequestHeader {
        magic: le16(s.subrange(i, i + 2)),
        version: s[i + 2],
        opcode: s[i + 3],
        payload_len: le32(s.subrange(i + 4, i + 8)),
        request_id: le64(s.subrange(i + 8, i + 16)),
    }
}

/// The 16 bytes that carry `h` on the wire.
pub open spec fn spec_header_bytes(h: RequestHeader) -> Seq<u8> {
    le16_bytes(h.magic) + seq![h.version, h.opcode] + le32_bytes(h.payload_len) + le64_bytes(
        h.request_id,
    )
}

/// The response header laid down at offset `i` of `s`.
pub open spec fn spec_response_at(s: Seq<u8>, i: int) -> ResponseHeader
    recommends
        0 <= i,
        i + HEADER_LEN <= s.len(),
{
    ResponseHeader {
        magic: le16(s.subrange(i, i + 2)),
        status: s[i + 2],
        opcode: s[i + 3],
        payload_len: le32(s.subrange(i + 4, i + 8)),
        request_id: le64(s.subrange(i + 8, i + 16)),
    }
}

/// The 16 bytes that carry `h` on the wire.
pub open spec fn spec_response_bytes(h: ResponseHeader) -> Seq<u8> {
    le16_bytes(h.magic) + seq![h.status, h.opcode] + le32_bytes(h.payload_len) + le64_bytes(
        h.request_id,
    )
}

/// Encoding a request header and reading it back yields the same header.
pub proof fn lemma_header_roundtrip(h: RequestHeader)
    ensures
        spec_header_bytes(h).len() == HEADER_LEN,
        spec_header_at(spec_header_bytes(h), 0) == h,
{
    lemma_le16_roundtrip(h.magic);
    lemma_le32_roundtrip(h.payload_len);
    lemma_le64_roundtrip(h.request_id);
    let b = spec_header_bytes(h);
    assert(b.subrange(0, 2) =~= le16_bytes(h.magic));
    assert(b.subrange(4, 8) =~= le32_bytes(h.payload_len));
    assert(b.subrange(8, 16) =~= le64_bytes(h.request_id));
}

/// Encoding a response header and reading it back yields the same header.
pub proof fn lemma_response_roundtrip(h: ResponseHeader)
    ensures
        spec_response_bytes(h).len() == HEADER_LEN,
        spec_response_at(spec_response_bytes(h), 0) == h,
{
    lemma_le16_roundtrip(h.magic);
    lemma_le32_roundtrip(h.payload_len);
    lemma_le64_roundtrip(h.request_id);
    let b = spec_response_bytes(h);
    assert(b.subrange(0, 2) =~= le16_bytes(h.magic));
    assert(b.subrange(4, 8) =~= le32_bytes(h.payload_len));
    assert(b.subrange(8, 16) =~= le64_bytes(h.request_id));
}

/// Reads a 16-bit little-endian value at offset `at`.
pub fn read_le16(buf: &[u8], at: usize) -> (x: u16)
    requires
        at + 2 <= buf@.len(),
    ensures
        x == le16(buf@.subrange(at as int, at + 2)),
{
    proof {
        reveal(le16);
    }
    // Pins the slice length into the machine range for the offset sums.
    let _len: usize = buf.len();
    let b0 = *slice_index_get(buf, at);
    let b1 = *slice_index_get(buf, at + 1);
    (b0 as u16) | ((b1 as u16) << 8)
}

/// Reads a 32-bit little-endian value at offset `at`.
pub fn read_le32(buf: &[u8], at: usize) -> (x: u32)
    requires
        at + 4 <= buf@.len(),
    ensures
        x == le32(buf@.subrange(at as int, at + 4)),
{
    proof {
        reveal(le32);
    }
    // Pins the slice length into the machine range for the offset sums.
    let _len: usize = buf.len();
    let b0 = *slice_index_get(buf, at);
    let b1 = *slice_index_get(buf, at + 1);
    let b2 = *slice_index_get(buf, at + 2);
    let b3 = *slice_index_get(buf, at + 3);
    (b0 as u32) | ((b1 as u32) << 8) | ((b2 as u32) << 16) | ((b3 as u32) << 24)
}

/// Reads a 64-bit little-endian value at offset `at`.
pub fn read_le64(buf: &[u8], at: usize) -> (x: u64)
    requires
        at + 8 <= buf@.len(),
    ensures
        x == le64(buf@.subrange(at as int, at + 8)),
{
    proof {
        reveal(le64);
    }
    // Pins the slice length into the machine range for the offset sums.
    let _len: usize = buf.len();
    let b0 = *slice_index_get(buf, at);
    let b1 = *slice_index_get(buf, at + 1);
    let b2 = *slice_index_get(buf, at + 2);
    let b3 = *slice_index_get(buf, at + 3);
    let b4 = *slice_index_get(buf, at + 4);
    let b5 = *slice_index_get(buf, at + 5);
    let b6 = *slice_index_get(buf, at + 6);
    let b7 = *slice_index_get(buf, at + 7);
    (b0 as u64) | ((b1 as u64) << 8) | ((b2 as u64) << 16) | ((b3 as u64) << 24) | ((b4 as u64)
        << 32) | ((b5 as u64) << 40) | ((b6 as u64) << 48) | ((b7 as u64) << 56)
}

/// Reads the request header stored at offset `at` of `buf`.
pub fn read_header_at(buf: &[u8], at: usize) -> (h: RequestHeader)
    requires
        at + HEADER_LEN <= buf@.len(),
    ensures
        h == spec_header_at(buf@, at as int),
{
    // Pins the slice length into the machine range for the offset sums.
    let _len: usize = buf.len();
    let magic = read_le16(buf, at);
    let version = *slice_index_get(buf, at + 2);
    let opcode = *slice_index_get(buf, at + 3);
    let payload_len = read_le32(buf, at + 4);
    let request_id = read_le64(buf, at + 8);
    RequestHeader { magic, version, opcode, payload_len, request_id }
}

/// Reads the response header stored at offset `at` of `buf`.
pub fn read_response_at(buf: &[u8], at: usize) -> (h: ResponseHeader)
    requires
        at + HEADER_LEN <= buf@.len(),
    ensures
        h == spec_response_at(buf@, at as int),
{
    // Pins the slice length into the machine range for the offset sums.
    let _len: usize = buf.len();
    let magic = read_le16(buf, at);
    let status = *slice_index_get(buf, at + 2);
    let opcode = *slice_index_get(buf, at + 3);
    let payload_len = read_le32(buf, at + 4);
    let request_id = read_le64(buf, at + 8);
    ResponseHeader { magic, status, opcode, payload_len, request_id }
}

/// Appends the two little-endian bytes of `x`.
fn push_le16(out: &mut Vec<u8>, x: u16)
    ensures
        final(out)@ == old(out)@ + le16_bytes(x),
{
    out.push((x & 0xff) as u8);
    out.push(((x >> 8) & 0xff) as u8);
    proof {
        reveal(le16_bytes);
        assert(out@ =~= old(out)@ + le16_bytes(x));
    }
}

/// Appends the four little-endian bytes of `x`.
fn push_le32(out: &mut Vec<u8>, x: u32)
    ensures
        final(out)@ == old(out)@ + le32_bytes(x),
{
    out.push((x & 0xff) as u8);
    out.push(((x >> 8) & 0xff) as u8);
    out.push(((x >> 16) & 0xff) as u8);
    out.push(((x >> 24) & 0xff) as u8);
    proof {
        reveal(le32_bytes);
        assert(out@ =~= old(out)@ + le32_bytes(x));
    }
}

/// Appends the eight little-endian bytes of `x`.
fn push_le64(out: &mut Vec<u8>, x: u64)
    ensures
        final(out)@ == old(out)@ + le64_bytes(x),
{
    out.push((x & 0xff) as u8);
    out.push(((x >> 8) & 0xff) as u8);
    out.push(((x >> 16) & 0xff) as u8);
    out.push(((x >> 24) & 0xff) as u8);
    out.push(((x >> 32) & 0xff) as u8);
    out.push(((x >> 40) & 0xff) as u8);
    out.push(((x >> 48) & 0xff) as u8);
    out.push(((x >> 56) & 0xff) as u8);
    proof {
        reveal(le64_bytes);
        assert(out@ =~= old(out)@ + le64_bytes(x));
    }
}

/// Serializes a request header into its 16 wire bytes.
pub fn encode_header(h: &RequestHeader) -> (out: Vec<u8>)
    ensures
        out@ == spec_header_bytes(*h),
        out@.len() == HEADER_LEN,
{
    let mut out: Vec<u8> = Vec::new();
    push_le16(&mut out, h.magic);
    out.push(h.version);
    out.push(h.opcode);
    push_le32(&mut out, h.payload_len);
    push_le64(&mut out, h.request_id);
    proof {
        lemma_le16_roundtrip(h.magic);
        lemma_le32_roundtrip(h.payload_len);
        lemma_le64_roundtrip(h.request_id);
        assert(out@ =~= spec_header_bytes(*h));
    }
    out
}

/// Serializes a response header into its 16 wire bytes.
pub fn encode_response(h: &ResponseHeader) -> (out: Vec<u8>)
    ensures
        out@ == spec_response_bytes(*h),
        out@.len() == HEADER_LEN,
{
    let mut out: Vec<u8> = Vec::new();
    push_le16(&mut out, h.magic);
    out.push(h.status);
    out.push(h.opcode);
    push_le32(&mut out, h.payload_len);
    push_le64(&mut out, h.request_id);
    proof {
        lemma_le16_roundtrip(h.magic);
        lemma_le32_roundtrip(h.payload_len);
        lemma_le64_roundtrip(h.request_id);
        assert(out@ =~= spec_response_bytes(*h));
    }
    out
}

/// Validates a byte slice as a request header: it must hold at least 16
/// bytes and start with the VBP magic value.
pub fn verify_header(bytes: &[u8]) -> (r: Result<RequestHeader, HeaderError>)
    ensures
        bytes@.len() < HEADER_LEN ==> r == Result::<RequestHeader, HeaderError>::Err(
            HeaderError::TooShort,
        ),
        bytes@.len() >= HEADER_LEN && spec_header_at(bytes@, 0).magic != VBP_MAGIC ==> r
            == Result::<RequestHeader, HeaderError>::Err(HeaderError::BadMagic),
        bytes@.len() >= HEADER_LEN && spec_header_at(bytes@, 0).magic == VBP_MAGIC ==> r
            == Result::<RequestHeader, HeaderError>::Ok(spec_header_at(bytes@, 0)),
{
    if bytes.len() < HEADER_LEN {
        return Err(HeaderError::TooShort);
    }
    let h = read_header_at(bytes, 0);
    if h.magic != VBP_MAGIC {
        return Err(HeaderError::BadMagic);
    }
    Ok(h)
}

} // verus!
