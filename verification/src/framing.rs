//! Framing and reassembly of VBP requests from a byte stream.
//!
//! Each connection owns a fixed-capacity receive window. Bytes arrive in
//! arbitrary contiguous pieces; the framing loop peels complete frames off
//! the front of the window, compacts the remainder to the start when a
//! frame is still incomplete, and reports a protocol violation when the
//! magic value does not match.

use vstd::prelude::*;

verus! {

use vstd::pervasive::VecAdditionalExecFns;
use crate::protocol::HEADER_LEN;
use crate::protocol::RequestHeader;
use crate::protocol::VBP_MAGIC;
use crate::protocol::read_header_at;
use crate::protocol::spec_header_at;
use crate::protocol::spec_header_bytes;
use crate::protocol::lemma_header_roundtrip;

/// Ghost image of one frame: its header and its payload bytes.
pub struct FrameData {
    pub header: RequestHeader,
    pub payload: Seq<u8>,
}

/// One reassembled request frame.
pub struct Frame {
    pub header: RequestHeader,
    pub payload: Vec<u8>,
}

impl View for Frame {
    type V = FrameData;

    open spec fn view(&self) -> FrameData {
        FrameData { header: self.header, payload: self.payload@ }
    }
}

/// A well-formed frame: correct magic, and a payload of exactly the
/// advertised length.
pub open spec fn frame_wf(f: FrameData) -> bool {
    &&& f.header.magic == VBP_MAGIC
    &&& f.payload.len() == f.header.payload_len
}

/// The wire bytes of one frame: 16 header bytes followed by the payload.
pub open spec fn frame_bytes(f: FrameData) -> Seq<u8> {
    spec_header_bytes(f.header) + f.payload
}

/// The wire bytes of a sequence of frames, concatenated in order.
pub open spec fn concat_frame_bytes(fs: Seq<FrameData>) -> Seq<u8>
    decreases fs.len(),
{
    if fs.len() == 0 {
        Seq::<u8>::empty()
    } else {
        frame_bytes(fs[0]) + concat_frame_bytes(fs.skip(1))
    }
}

/// Appending one frame to a sequence appends its bytes to the
/// concatenation.
pub proof fn lemma_concat_snoc(fs: Seq<FrameData>, f: FrameData)
    ensures
        concat_frame_bytes(fs.push(f)) == concat_frame_bytes(fs) + frame_bytes(f),
    decreases fs.len(),
{
    let whole = fs.push(f);
    if fs.len() == 0 {
        assert(whole[0] == f);
        assert(whole.skip(1) =~= Seq::<FrameData>::empty());
        assert(concat_frame_bytes(whole.skip(1)) == Seq::<u8>::empty());
        assert(concat_frame_bytes(fs) == Seq::<u8>::empty());
        assert(concat_frame_bytes(whole) =~= concat_frame_bytes(fs) + frame_bytes(f));
    } else {
        assert(whole[0] == fs[0]);
        assert(whole.skip(1) =~= fs.skip(1).push(f));
        lemma_concat_snoc(fs.skip(1), f);
        assert(concat_frame_bytes(whole) == frame_bytes(fs[0]) + concat_frame_bytes(
            whole.skip(1),
        ));
        assert(concat_frame_bytes(whole.skip(1)) == concat_frame_bytes(fs.skip(1))
            + frame_bytes(f));
        assert(concat_frame_bytes(fs) == frame_bytes(fs[0]) + concat_frame_bytes(fs.skip(1)));
        assert(concat_frame_bytes(whole) =~= concat_frame_bytes(fs) + frame_bytes(f));
    }
}

/// A concatenation of well-formed frames holds at least one byte per
/// frame (each frame is at least a header long).
pub proof fn lemma_concat_count_bound(fs: Seq<FrameData>)
    requires
        forall|i: int| 0 <= i < fs.len() ==> #[trigger] frame_wf(fs[i]),
    ensures
        concat_frame_bytes(fs).len() >= fs.len(),
    decreases fs.len(),
{
    if fs.len() > 0 {
        lemma_header_roundtrip(fs[0].header);
        assert(frame_bytes(fs[0]).len() >= HEADER_LEN);
        lemma_concat_count_bound(fs.skip(1));
    }
}

/// A complete, valid frame sits at the front of `p`.
pub open spec fn has_complete_frame(p: Seq<u8>) -> bool {
    &&& p.len() >= HEADER_LEN
    &&& spec_header_at(p, 0).magic == VBP_MAGIC
    &&& p.len() >= HEADER_LEN + spec_header_at(p, 0).payload_len
}

/// Greedy parse: all complete, valid frames at the front of `s`, in order.
/// Parsing stops at the first incomplete frame or at a magic mismatch.
pub open spec fn parse_frames(s: Seq<u8>) -> Seq<FrameData>
    decreases s.len(),
{
    if !has_complete_frame(s) {
        Seq::<FrameData>::empty()
    } else {
        let h = spec_header_at(s, 0);
        let flen = HEADER_LEN + h.payload_len as int;
        seq![FrameData { header: h, payload: s.subrange(HEADER_LEN as int, flen) }]
            + parse_frames(s.skip(flen))
    }
}

/// Whether the greedy parse of `s` halts on a magic mismatch (a protocol
/// violation) rather than on exhausted input.
pub open spec fn parse_violation(s: Seq<u8>) -> bool
    decreases s.len(),
{
    if s.len() < HEADER_LEN {
        false
    } else {
        let h = spec_header_at(s, 0);
        if h.magic != VBP_MAGIC {
            true
        } else if s.len() < HEADER_LEN + h.payload_len {
            false
        } else {
            parse_violation(s.skip(HEADER_LEN + h.payload_len as int))
        }
    }
}

/// Prepending one well-formed frame's bytes prepends exactly that frame to
/// the greedy parse, and cannot introduce a violation.
pub proof fn lemma_parse_frames_prepend(f: FrameData, rest: Seq<u8>)
    requires
        frame_wf(f),
    ensures
        parse_frames(frame_bytes(f) + rest) == seq![f] + parse_frames(rest),
        parse_violation(frame_bytes(f) + rest) == parse_violation(rest),
{
    let hb = spec_header_bytes(f.header);
    let b = frame_bytes(f) + rest;
    lemma_header_roundtrip(f.header);
    let flen = HEADER_LEN + f.header.payload_len as int;
    assert(b.len() == flen + rest.len());
    assert(b.subrange(0, 2) =~= hb.subrange(0, 2));
    assert(b.subrange(4, 8) =~= hb.subrange(4, 8));
    assert(b.subrange(8, 16) =~= hb.subrange(8, 16));
    assert(b[2] == hb[2]);
    assert(b[3] == hb[3]);
    assert(spec_header_at(b, 0) == f.header);
    assert(b.subrange(HEADER_LEN as int, flen) =~= f.payload);
    assert(b.skip(flen) =~= rest);
    assert(parse_frames(b) == seq![f] + parse_frames(rest));
}

/// Framing round trip: the concatenation of any well-formed frames parses
/// back to exactly those frames, in order, with no violation. Together
/// with the contracts of `FrameBuffer::receive` and
/// `FrameBuffer::take_frame` — which are insensitive to how the bytes were
/// split on arrival — this pins down reassembly under arbitrary
/// fragmentation.
pub proof fn lemma_framing_round_trip(fs: Seq<FrameData>)
    requires
        forall|i: int| 0 <= i < fs.len() ==> #[trigger] frame_wf(fs[i]),
    ensures
        parse_frames(concat_frame_bytes(fs)) == fs,
        !parse_violation(concat_frame_bytes(fs)),
{
    lemma_parse_concat_prefix(fs, Seq::<u8>::empty());
    assert(concat_frame_bytes(fs) + Seq::<u8>::empty() =~= concat_frame_bytes(fs));
    assert(parse_frames(Seq::<u8>::empty()) =~= Seq::<FrameData>::empty());
    assert(fs + Seq::<FrameData>::empty() =~= fs);
}

/// Prepending the bytes of several well-formed frames prepends exactly
/// those frames to the greedy parse.
pub proof fn lemma_parse_concat_prefix(fs: Seq<FrameData>, rest: Seq<u8>)
    requires
        forall|i: int| 0 <= i < fs.len() ==> #[trigger] frame_wf(fs[i]),
    ensures
        parse_frames(concat_frame_bytes(fs) + rest) == fs + parse_frames(rest),
        parse_violation(concat_frame_bytes(fs) + rest) == parse_violation(rest),
    decreases fs.len(),
{
    if fs.len() == 0 {
        assert(concat_frame_bytes(fs) + rest =~= rest);
        assert(fs + parse_frames(rest) =~= parse_frames(rest));
    } else {
        lemma_parse_concat_prefix(fs.skip(1), rest);
        lemma_parse_frames_prepend(fs[0], concat_frame_bytes(fs.skip(1)) + rest);
        assert(frame_bytes(fs[0]) + (concat_frame_bytes(fs.skip(1)) + rest)
            =~= concat_frame_bytes(fs) + rest);
        assert(seq![fs[0]] + (fs.skip(1) + parse_frames(rest)) =~= fs + parse_frames(rest));
    }
}

/// A run of zero bytes parses to no frames: it is either shorter than a
/// header or fails the magic check, which is how batch padding terminates
/// a scan.
pub proof fn lemma_parse_zeros(pad: Seq<u8>)
    requires
        forall|i: int| 0 <= i < pad.len() ==> #[trigger] pad[i] == 0u8,
    ensures
        parse_frames(pad) == Seq::<FrameData>::empty(),
{
    if pad.len() >= HEADER_LEN {
        assert(spec_header_at(pad, 0).magic == 0) by {
            assert(pad.subrange(0, 2)[0] == 0u8);
            assert(pad.subrange(0, 2)[1] == 0u8);
            reveal(crate::protocol::le16);
            assert((0u8 as u16) | ((0u8 as u16) << 8) == 0u16) by (bit_vector);
        }
    }
}

/// Parses every complete, valid frame at the front of `bytes`, exactly as
/// the greedy parse describes.
pub fn parse_concat(bytes: &[u8]) -> (r: Vec<Frame>)
    ensures
        r@.map_values(|f: Frame| f@) == parse_frames(bytes@),
{
    let n = bytes.len();
    let mut out: Vec<Frame> = Vec::new();
    let mut at: usize = 0;
    proof {
        assert(bytes@.skip(0) =~= bytes@);
        assert(out@.map_values(|f: Frame| f@) =~= Seq::<FrameData>::empty());
        assert(parse_frames(bytes@) =~= out@.map_values(|f: Frame| f@) + parse_frames(
            bytes@.skip(0),
        ));
    }
    loop
        invariant
            at <= n,
            n == bytes@.len(),
            parse_frames(bytes@) == out@.map_values(|f: Frame| f@) + parse_frames(
                bytes@.skip(at as int),
            ),
        ensures
            out@.map_values(|f: Frame| f@) == parse_frames(bytes@),
        decreases n - at,
    {
        let ghost tail = bytes@.skip(at as int);
        if n - at < HEADER_LEN {
            proof {
                assert(parse_frames(bytes@) =~= out@.map_values(|f: Frame| f@));
            }
            break;
        }
        let h = crate::protocol::read_header_at(bytes, at);
        proof {
            assert(bytes@.subrange(at as int, at + 2) =~= tail.subrange(0, 2));
            assert(bytes@.subrange(at + 4, at + 8) =~= tail.subrange(4, 8));
            assert(bytes@.subrange(at + 8, at + 16) =~= tail.subrange(8, 16));
            assert(h == spec_header_at(tail, 0));
        }
        if h.magic != VBP_MAGIC {
            proof {
                assert(parse_frames(bytes@) =~= out@.map_values(|f: Frame| f@));
            }
            break;
        }
        if (h.payload_len as u64) > (n - at - HEADER_LEN) as u64 {
            proof {
                assert(parse_frames(bytes@) =~= out@.map_values(|f: Frame| f@));
            }
            break;
        }
        let pl = h.payload_len as usize;
        let payload = vstd::slice::slice_to_vec(
            vstd::slice::slice_subrange(bytes, at + HEADER_LEN, at + HEADER_LEN + pl),
        );
        let f = Frame { header: h, payload };
        proof {
            assert(f@.payload =~= tail.subrange(HEADER_LEN as int, HEADER_LEN + pl as int));
            assert(bytes@.skip(at + HEADER_LEN + pl as int) =~= tail.skip(
                HEADER_LEN + pl as int,
            ));
            assert(parse_frames(tail) == seq![f@] + parse_frames(
                tail.skip(HEADER_LEN + pl as int),
            ));
            assert(out@.push(f).map_values(|g: Frame| g@) =~= out@.map_values(|g: Frame| g@).push(
                f@,
            ));
            assert(out@.map_values(|g: Frame| g@).push(f@) + parse_frames(
                bytes@.skip(at + HEADER_LEN + pl as int),
            ) =~= out@.map_values(|g: Frame| g@) + parse_frames(tail));
        }
        out.push(f);
        at = at + HEADER_LEN + pl;
    }
    out
}

/// What the framing loop sees at the front of the window.
#[derive(Clone, Copy, Debug, PartialEq, Eq, Structural)]
pub enum FrameStep {
    /// Fewer bytes than a header, or fewer than the advertised frame: wait
    /// for more input.
    NeedMore,
    /// The magic value does not match: protocol violation.
    BadMagic,
    /// A complete frame with this header is ready to be taken.
    Ready(RequestHeader),
}

/// A fixed-capacity receive window. Bytes between `consumed` and
/// `accumulated` are pending input; everything before `consumed` has been
/// framed already.
pub struct FrameBuffer {
    buf: Vec<u8>,
    accumulated: usize,
    consumed: usize,
}

impl FrameBuffer {
    /// The window never shrinks below its cursors: `consumed` trails
    /// `accumulated`, which stays within capacity.
    pub closed spec fn wf(&self) -> bool {
        self.consumed <= self.accumulated <= self.buf@.len()
    }

    /// The bytes received but not yet framed.
    pub closed spec fn pending(&self) -> Seq<u8> {
        self.buf@.subrange(self.consumed as int, self.accumulated as int)
    }

    pub closed spec fn spec_capacity(&self) -> int {
        self.buf@.len() as int
    }

    pub closed spec fn spec_accumulated(&self) -> int {
        self.accumulated as int
    }

    pub closed spec fn spec_consumed(&self) -> int {
        self.consumed as int
    }

    /// The window invariant, stated for callers: the read cursor trails
    /// the write cursor, which stays within the fixed capacity, so the
    /// pending bytes always fit the window.
    pub proof fn lemma_pending_within(&self)
        requires
            self.wf(),
        ensures
            0 <= self.spec_consumed() <= self.spec_accumulated() <= self.spec_capacity(),
            self.pending().len() == self.spec_accumulated() - self.spec_consumed(),
            self.pending().len() <= self.spec_capacity(),
    {
    }

    pub fn new(capacity: usize) -> (r: Self)
        ensures
            r.wf(),
            r.pending() == Seq::<u8>::empty(),
            r.spec_capacity() == capacity,
            r.spec_accumulated() == 0,
    {
        let r = FrameBuffer { buf: vec![0u8; capacity], accumulated: 0, consumed: 0 };
        proof {
            assert(r.pending() =~= Seq::<u8>::empty());
        }
        r
    }

    /// Bytes of pending input.
    pub fn pending_len(&self) -> (r: usize)
        requires
            self.wf(),
        ensures
            r == self.pending().len(),
    {
        self.accumulated - self.consumed
    }

    /// Space left after the write cursor; a read may deliver at most this
    /// many bytes.
    pub fn room(&self) -> (r: usize)
        requires
            self.wf(),
        ensures
            r == self.spec_capacity() - self.spec_accumulated(),
    {
        self.buf.len() - self.accumulated
    }

    /// Slides the pending bytes to the start of the window, so that the
    /// whole tail of the buffer is available for the next read.
    pub fn compact(&mut self)
        requires
            old(self).wf(),
        ensures
            final(self).wf(),
            final(self).pending() == old(self).pending(),
            final(self).spec_capacity() == old(self).spec_capacity(),
            final(self).spec_accumulated() == old(self).pending().len(),
    {
        if self.consumed == 0 {
            return;
        }
        let avail = self.accumulated - self.consumed;
        let shift = self.consumed;
        let mut i: usize = 0;
        while i < avail
            invariant
                i <= avail,
                shift >= 1,
                avail + shift <= self.buf@.len(),
                self.buf@.len() == old(self).buf@.len(),
                self.accumulated == old(self).accumulated,
                self.consumed == old(self).consumed,
                shift == old(self).consumed,
                avail == old(self).accumulated - old(self).consumed,
                forall|j: int| 0 <= j < i ==> self.buf@[j] == old(self).pending()[j],
                forall|j: int| i <= j < self.buf@.len() ==> self.buf@[j] == old(self).buf@[j],
            decreases avail - i,
        {
            let b = self.buf[shift + i];
            self.buf.set(i, b);
            i += 1;
        }
        self.accumulated = avail;
        self.consumed = 0;
        proof {
            assert(self.pending() =~= old(self).pending());
        }
    }

    /// Appends newly received bytes at the write cursor.
    pub fn receive(&mut self, chunk: &[u8])
        requires
            old(self).wf(),
            old(self).spec_accumulated() + chunk@.len() <= old(self).spec_capacity(),
        ensures
            final(self).wf(),
            final(self).pending() == old(self).pending() + chunk@,
            final(self).spec_capacity() == old(self).spec_capacity(),
    {
        let n = chunk.len();
        let base = self.accumulated;
        let cap = self.buf.len();
        let mut i: usize = 0;
        while i < n
            invariant
                i <= n,
                n == chunk@.len(),
                base == old(self).accumulated,
                cap == self.buf@.len(),
                base + n <= self.buf@.len(),
                self.buf@.len() == old(self).buf@.len(),
                self.accumulated == old(self).accumulated,
                self.consumed == old(self).consumed,
                old(self).consumed <= old(self).accumulated,
                forall|j: int| 0 <= j < base ==> self.buf@[j] == old(self).buf@[j],
                forall|j: int| 0 <= j < i ==> self.buf@[base + j] == chunk@[j],
                forall|j: int| base + i <= j < self.buf@.len() ==> self.buf@[j] == old(
                    self,
                ).buf@[j],
            decreases n - i,
        {
            let b = *vstd::slice::slice_index_get(chunk, i);
            self.buf.set(base + i, b);
            i += 1;
        }
        self.accumulated = base + n;
        proof {
            assert(self.pending() =~= old(self).pending() + chunk@);
        }
    }

    /// Inspects the front of the window without consuming anything.
    pub fn next_step(&self) -> (r: FrameStep)
        requires
            self.wf(),
        ensures
            self.pending().len() < HEADER_LEN ==> r == FrameStep::NeedMore,
            self.pending().len() >= HEADER_LEN && spec_header_at(self.pending(), 0).magic
                != VBP_MAGIC ==> r == FrameStep::BadMagic,
            self.pending().len() >= HEADER_LEN && spec_header_at(self.pending(), 0).magic
                == VBP_MAGIC && self.pending().len() < HEADER_LEN + spec_header_at(
                self.pending(),
                0,
            ).payload_len ==> r == FrameStep::NeedMore,
            has_complete_frame(self.pending()) ==> r == FrameStep::Ready(
                spec_header_at(self.pending(), 0),
            ),
            r is Ready ==> has_complete_frame(self.pending()) && r == FrameStep::Ready(
                spec_header_at(self.pending(), 0),
            ),
    {
        let avail = self.accumulated - self.consumed;
        if avail < HEADER_LEN {
            return FrameStep::NeedMore;
        }
        let h = read_header_at(self.buf.as_slice(), self.consumed);
        proof {
            assert(self.buf@.subrange(self.consumed as int, self.consumed + 2) =~= self.pending()
                .subrange(0, 2));
            assert(self.buf@.subrange(self.consumed + 4, self.consumed + 8) =~= self.pending()
                .subrange(4, 8));
            assert(self.buf@.subrange(self.consumed + 8, self.consumed + 16) =~= self.pending()
                .subrange(8, 16));
            assert(h == spec_header_at(self.pending(), 0));
        }
        if h.magic != VBP_MAGIC {
            return FrameStep::BadMagic;
        }
        if h.payload_len as usize > avail - HEADER_LEN {
            return FrameStep::NeedMore;
        }
        FrameStep::Ready(h)
    }

    /// Takes the complete frame at the front of the window, advancing the
    /// read cursor past it.
    pub fn take_frame(&mut self) -> (f: Frame)
        requires
            old(self).wf(),
            has_complete_frame(old(self).pending()),
        ensures
            final(self).wf(),
            frame_wf(f@),
            f@.header == spec_header_at(old(self).pending(), 0),
            f@.payload == old(self).pending().subrange(
                HEADER_LEN as int,
                HEADER_LEN + f@.header.payload_len as int,
            ),
            final(self).pending() == old(self).pending().skip(
                HEADER_LEN + f@.header.payload_len as int,
            ),
            final(self).spec_capacity() == old(self).spec_capacity(),
            parse_frames(old(self).pending()) == seq![f@] + parse_frames(final(self).pending()),
            parse_violation(old(self).pending()) == parse_violation(final(self).pending()),
    {
        let h = read_header_at(self.buf.as_slice(), self.consumed);
        proof {
            assert(self.buf@.subrange(self.consumed as int, self.consumed + 2) =~= self.pending()
                .subrange(0, 2));
            assert(self.buf@.subrange(self.consumed + 4, self.consumed + 8) =~= self.pending()
                .subrange(4, 8));
            assert(self.buf@.subrange(self.consumed + 8, self.consumed + 16) =~= self.pending()
                .subrange(8, 16));
            assert(h == spec_header_at(self.pending(), 0));
        }
        let pl = h.payload_len as usize;
        let start = self.consumed + HEADER_LEN;
        let mut payload: Vec<u8> = Vec::new();
        let mut i: usize = 0;
        while i < pl
            invariant
                i <= pl,
                payload@.len() == i,
                start + pl <= self.accumulated <= self.buf@.len(),
                start == self.consumed + HEADER_LEN,
                self == old(self),
                h == spec_header_at(old(self).pending(), 0),
                pl == h.payload_len,
                forall|j: int| 0 <= j < i ==> payload@[j] == self.buf@[start + j],
            decreases pl - i,
        {
            let b = self.buf[start + i];
            payload.push(b);
            i += 1;
        }
        self.consumed = start + pl;
        let f = Frame { header: h, payload };
        proof {
            assert(f@.payload =~= old(self).pending().subrange(
                HEADER_LEN as int,
                HEADER_LEN + h.payload_len as int,
            ));
            assert(self.pending() =~= old(self).pending().skip(
                HEADER_LEN + h.payload_len as int,
            ));
        }
        f
    }
}

} // verus!
