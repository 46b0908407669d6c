//! Write-ahead log format, append-offset tracking, and crash recovery.
//!
//! The log is the concatenation of fully framed requests (16-byte header
//! plus payload), with each flushed batch zero-padded up to the next
//! sector boundary. Recovery walks the file from the start: a clean end of
//! file stops the scan; a short header, a short payload or a wrong magic
//! value marks the corruption point, and the file is truncated back to the
//! last known good offset. Trailing batch padding shows up as a zero magic
//! value and is pruned by the same path.

use vstd::prelude::*;

verus! {

use crate::framing::FrameData;
use crate::protocol::HEADER_LEN;
use crate::protocol::OP_UPSERT;
use crate::protocol::RequestHeader;
use crate::protocol::VBP_MAGIC;
use crate::protocol::read_header_at;
use crate::protocol::spec_header_at;
use crate::protocol::le64;
use crate::protocol::read_le64;
use vstd::slice::slice_index_get;
use vstd::slice::slice_subrange;

/// Tracks the append offset of one shard's log file. The file itself is
/// owned outside; this state machine decides where every write lands and
/// guarantees that offsets only ever move forward, except for the one
/// truncation that recovery may apply.
pub struct WalManager {
    current_offset: u64,
}

impl WalManager {
    pub closed spec fn spec_offset(&self) -> u64 {
        self.current_offset
    }

    /// Starts at the offset the log file already has (its size on boot).
    pub fn new(initial_offset: u64) -> (r: Self)
        ensures
            r.spec_offset() == initial_offset,
    {
        WalManager { current_offset: initial_offset }
    }

    /// Reserves the next `len` bytes of the log for a write and returns
    /// the offset that write must target. The append offset strictly
    /// increases for every non-empty write.
    pub fn write_entry(&mut self, len: u32) -> (off: u64)
        requires
            old(self).spec_offset() + len <= u64::MAX,
        ensures
            off == old(self).spec_offset(),
            final(self).spec_offset() == old(self).spec_offset() + len,
    {
        let off = self.current_offset;
        self.current_offset = off + len as u64;
        off
    }

    /// Rewinds the append offset; only recovery uses this, to prune a
    /// corrupted tail.
    pub fn truncate(&mut self, offset: u64)
        requires
            offset <= old(self).spec_offset(),
        ensures
            final(self).spec_offset() == offset,
    {
        self.current_offset = offset;
    }

    /// The current append offset (equals the logical file size).
    pub fn current_offset(&self) -> (r: u64)
        ensures
            r == self.spec_offset(),
    {
        self.current_offset
    }
}

/// A single log entry read during replay: one framed request.
pub struct WalEntry {
    /// The raw request header.
    pub header: RequestHeader,
    /// The payload bytes that followed it.
    pub payload: Vec<u8>,
}

impl View for WalEntry {
    type V = FrameData;

    open spec fn view(&self) -> FrameData {
        FrameData { header: self.header, payload: self.payload@ }
    }
}

/// What a scan of the log found.
pub struct ScanData {
    /// The complete, valid entries, in file order.
    pub entries: Seq<FrameData>,
    /// The byte offset just past the last valid entry.
    pub good: int,
    /// Whether the scan stopped on corruption (or padding) rather than on
    /// a clean end of file.
    pub truncated: bool,
}

/// Scan of `s` starting at offset `from`: reads framed entries until the
/// bytes end exactly (clean stop), or a short header, wrong magic or short
/// payload marks the corruption point.
pub open spec fn wal_scan_from(s: Seq<u8>, from: int) -> ScanData
    recommends
        0 <= from <= s.len(),
    decreases s.len() - from,
    when 0 <= from <= s.len()
{
    if from == s.len() {
        ScanData { entries: Seq::<FrameData>::empty(), good: from, truncated: false }
    } else if s.len() - from < HEADER_LEN {
        ScanData { entries: Seq::<FrameData>::empty(), good: from, truncated: true }
    } else {
        let h = spec_header_at(s, from);
        if h.magic != VBP_MAGIC {
            ScanData { entries: Seq::<FrameData>::empty(), good: from, truncated: true }
        } else if s.len() - from - HEADER_LEN < h.payload_len {
            ScanData { entries: Seq::<FrameData>::empty(), good: from, truncated: true }
        } else {
            let nxt = from + HEADER_LEN + h.payload_len as int;
            let rest = wal_scan_from(s, nxt);
            ScanData {
                entries: seq![
                    FrameData { header: h, payload: s.subrange(from + HEADER_LEN, nxt) },
                ] + rest.entries,
                good: rest.good,
                truncated: rest.truncated,
            }
        }
    }
}

/// Scan of a whole log image.
pub open spec fn wal_scan(s: Seq<u8>) -> ScanData {
    wal_scan_from(s, 0)
}

/// The scan never claims a good offset outside the image, and it reports
/// truncation exactly when it stopped short of the end.
pub proof fn lemma_wal_scan_bounds(s: Seq<u8>, from: int)
    requires
        0 <= from <= s.len(),
    ensures
        from <= wal_scan_from(s, from).good <= s.len(),
        wal_scan_from(s, from).truncated <==> wal_scan_from(s, from).good < s.len(),
    decreases s.len() - from,
{
    if from == s.len() {
    } else if s.len() - from < HEADER_LEN {
    } else {
        let h = spec_header_at(s, from);
        if h.magic == VBP_MAGIC && s.len() - from - HEADER_LEN >= h.payload_len {
            lemma_wal_scan_bounds(s, from + HEADER_LEN + h.payload_len as int);
        }
    }
}

/// Recovery idempotence: after truncating the image to the good offset, a
/// second scan finds exactly the same entries, the same good offset, and
/// no further corruption. Running recovery twice therefore yields the same
/// replayed state as running it once.
pub proof fn lemma_recovery_idempotent_from(s: Seq<u8>, from: int)
    requires
        0 <= from <= s.len(),
    ensures
        ({
            let r = wal_scan_from(s, from);
            let t = s.subrange(0, r.good);
            &&& wal_scan_from(t, from).entries == r.entries
            &&& wal_scan_from(t, from).good == r.good
            &&& !wal_scan_from(t, from).truncated
        }),
    decreases s.len() - from,
{
    let r = wal_scan_from(s, from);
    lemma_wal_scan_bounds(s, from);
    let t = s.subrange(0, r.good);
    if from == s.len() {
    } else if s.len() - from < HEADER_LEN {
    } else {
        let h = spec_header_at(s, from);
        if h.magic != VBP_MAGIC {
        } else if s.len() - from - HEADER_LEN < h.payload_len {
        } else {
            let nxt = from + HEADER_LEN + h.payload_len as int;
            lemma_wal_scan_bounds(s, nxt);
            lemma_recovery_idempotent_from(s, nxt);
            let rn = wal_scan_from(s, nxt);
            assert(rn.good == r.good);
            assert(t.len() == r.good);
            assert(t.subrange(from, from + 2) =~= s.subrange(from, from + 2));
            assert(t.subrange(from + 4, from + 8) =~= s.subrange(from + 4, from + 8));
            assert(t.subrange(from + 8, from + 16) =~= s.subrange(from + 8, from + 16));
            assert(spec_header_at(t, from) == h);
            assert(t.subrange(from + HEADER_LEN, nxt) =~= s.subrange(from + HEADER_LEN, nxt));
            assert(s.subrange(0, rn.good) == t);
            assert(wal_scan_from(t, from).entries =~= r.entries);
        }
    }
}

/// Recovery idempotence for a whole image.
pub proof fn lemma_recovery_idempotent(s: Seq<u8>)
    ensures
        wal_scan(s.subrange(0, wal_scan(s).good)).entries == wal_scan(s).entries,
        wal_scan(s.subrange(0, wal_scan(s).good)).good == wal_scan(s).good,
        !wal_scan(s.subrange(0, wal_scan(s).good)).truncated,
{
    lemma_recovery_idempotent_from(s, 0);
}

/// The outcome of scanning a log image.
pub struct RecoveryReport {
    /// Every complete, valid entry, in file order.
    pub entries: Vec<WalEntry>,
    /// The byte offset just past the last valid entry; the file should be
    /// truncated here when `truncated` is set.
    pub good_offset: usize,
    /// Whether the scan hit corruption (or batch padding) before the end.
    pub truncated: bool,
}

/// Walks a log image from offset 0 and returns every valid entry plus the
/// truncation decision, exactly as `wal_scan` describes.
pub fn recover_scan(bytes: &[u8]) -> (r: RecoveryReport)
    ensures
        r.entries@.map_values(|e: WalEntry| e@) == wal_scan(bytes@).entries,
        r.good_offset == wal_scan(bytes@).good,
        r.truncated == wal_scan(bytes@).truncated,
{
    let n = bytes.len();
    let mut entries: Vec<WalEntry> = Vec::new();
    let mut at: usize = 0;
    loop
        invariant
            at <= n,
            n == bytes@.len(),
            wal_scan(bytes@).entries == entries@.map_values(|e: WalEntry| e@)
                + wal_scan_from(bytes@, at as int).entries,
            wal_scan(bytes@).good == wal_scan_from(bytes@, at as int).good,
            wal_scan(bytes@).truncated == wal_scan_from(bytes@, at as int).truncated,
        ensures
            ({
                let r0 = wal_scan_from(bytes@, at as int);
                &&& entries@.map_values(|e: WalEntry| e@) == wal_scan(bytes@).entries
                &&& r0.good == at
                &&& r0.entries.len() == 0
            }),
        decreases n - at,
    {
        if at == n {
            proof {
                assert(wal_scan(bytes@).entries =~= entries@.map_values(|e: WalEntry| e@));
            }
            break;
        }
        if n - at < HEADER_LEN {
            proof {
                assert(wal_scan(bytes@).entries =~= entries@.map_values(|e: WalEntry| e@));
            }
            break;
        }
        let h = read_header_at(bytes, at);
        if h.magic != VBP_MAGIC {
            proof {
                assert(wal_scan(bytes@).entries =~= entries@.map_values(|e: WalEntry| e@));
            }
            break;
        }
        if (h.payload_len as u64) > (n - at - HEADER_LEN) as u64 {
            proof {
                assert(wal_scan(bytes@).entries =~= entries@.map_values(|e: WalEntry| e@));
            }
            break;
        }
        let pl = h.payload_len as usize;
        let payload = vstd::slice::slice_to_vec(slice_subrange(bytes, at + HEADER_LEN, at
            + HEADER_LEN + pl));
        let entry = WalEntry { header: h, payload };
        entries.push(entry);
        proof {
            let ghost prev = at as int;
            let ghost nxt = prev + HEADER_LEN + h.payload_len as int;
            assert(entries@.map_values(|e: WalEntry| e@) =~= entries@.subrange(
                0,
                entries@.len() - 1,
            ).map_values(|e: WalEntry| e@).push(entry@));
            assert(wal_scan_from(bytes@, prev).entries =~= seq![entry@] + wal_scan_from(
                bytes@,
                nxt,
            ).entries);
        }
        at = at + HEADER_LEN + pl;
    }
    let report = RecoveryReport { entries, good_offset: at, truncated: at < n };
    proof {
        lemma_wal_scan_bounds(bytes@, at as int);
    }
    report
}

/// A mutation recovered from the log: the external identifier and the raw
/// vector bytes that followed it.
pub struct UpsertRecord {
    pub id: u64,
    pub vector_bytes: Vec<u8>,
}

/// Ghost image of one replayed mutation.
pub struct UpsertRecordData {
    pub id: u64,
    pub vector_bytes: Seq<u8>,
}

impl View for UpsertRecord {
    type V = UpsertRecordData;

    open spec fn view(&self) -> UpsertRecordData {
        UpsertRecordData { id: self.id, vector_bytes: self.vector_bytes@ }
    }
}

/// An entry that replay applies to the index: an upsert whose payload
/// holds an identifier and at least one vector component.
pub open spec fn is_replayable(f: FrameData) -> bool {
    &&& f.header.opcode == OP_UPSERT
    &&& f.payload.len() >= 12
}

/// The mutation an entry carries.
pub open spec fn record_of(f: FrameData) -> UpsertRecordData {
    UpsertRecordData {
        id: le64(f.payload.subrange(0, 8)),
        vector_bytes: f.payload.skip(8),
    }
}

/// The mutations, in order, that replaying `entries` applies: one per
/// replayable upsert entry; everything else is skipped.
pub open spec fn replay_records(entries: Seq<FrameData>) -> Seq<UpsertRecordData>
    decreases entries.len(),
{
    if entries.len() == 0 {
        Seq::<UpsertRecordData>::empty()
    } else if is_replayable(entries[0]) {
        seq![record_of(entries[0])] + replay_records(entries.skip(1))
    } else {
        replay_records(entries.skip(1))
    }
}

/// Appending one entry extends the replayed mutations by that entry's
/// record when it is replayable, and by nothing otherwise.
pub proof fn lemma_replay_records_snoc(entries: Seq<FrameData>, f: FrameData)
    ensures
        replay_records(entries.push(f)) == if is_replayable(f) {
            replay_records(entries).push(record_of(f))
        } else {
            replay_records(entries)
        },
    decreases entries.len(),
{
    let whole = entries.push(f);
    if entries.len() == 0 {
        let tail = whole.skip(1);
        assert(whole[0] == f);
        assert(tail =~= Seq::<FrameData>::empty());
        assert(replay_records(tail) == Seq::<UpsertRecordData>::empty());
        assert(replay_records(entries) == Seq::<UpsertRecordData>::empty());
        if is_replayable(f) {
            assert(replay_records(whole) == seq![record_of(f)] + replay_records(tail));
            assert(replay_records(whole) =~= replay_records(entries).push(record_of(f)));
        } else {
            assert(replay_records(whole) =~= replay_records(entries));
        }
    } else {
        assert(whole[0] == entries[0]);
        assert(whole.skip(1) =~= entries.skip(1).push(f));
        lemma_replay_records_snoc(entries.skip(1), f);
        if is_replayable(f) {
            assert(replay_records(whole) =~= replay_records(entries).push(record_of(f)));
        } else {
            assert(replay_records(whole) =~= replay_records(entries));
        }
    }
}

/// Extracts, in order, the mutations that the recovered entries carry.
/// Together with `recover_scan`, this derives from the log exactly the set
/// of vectors that the valid, complete upsert frames describe; rebuilding
/// the index is then a pointwise application of these records.
pub fn upsert_records(entries: &Vec<WalEntry>) -> (r: Vec<UpsertRecord>)
    ensures
        r@.map_values(|u: UpsertRecord| u@) == replay_records(
            entries@.map_values(|e: WalEntry| e@),
        ),
{
    let ghost all = entries@.map_values(|e: WalEntry| e@);
    let mut out: Vec<UpsertRecord> = Vec::new();
    let n = entries.len();
    let mut i: usize = 0;
    while i < n
        invariant
            i <= n,
            n == entries@.len(),
            all == entries@.map_values(|e: WalEntry| e@),
            out@.map_values(|u: UpsertRecord| u@) == replay_records(all.subrange(0, i as int)),
        decreases n - i,
    {
        let e = &entries[i];
        proof {
            assert(all.subrange(0, i + 1) =~= all.subrange(0, i as int).push(all[i as int]));
            lemma_replay_records_snoc(all.subrange(0, i as int), all[i as int]);
        }
        if e.header.opcode == OP_UPSERT && e.payload.len() >= 12 {
            let id = read_le64(e.payload.as_slice(), 0);
            let vector_bytes = vstd::slice::slice_to_vec(
                slice_subrange(e.payload.as_slice(), 8, e.payload.len()),
            );
            let rec = UpsertRecord { id, vector_bytes };
            proof {
                assert(rec@ == record_of(all[i as int]));
            }
            out.push(rec);
            proof {
                assert(out@.map_values(|u: UpsertRecord| u@) =~= replay_records(
                    all.subrange(0, i + 1),
                ));
            }
        } else {
            proof {
                assert(out@.map_values(|u: UpsertRecord| u@) =~= replay_records(
                    all.subrange(0, i + 1),
                ));
            }
        }
        i += 1;
    }
    proof {
        assert(all.subrange(0, n as int) =~= all);
    }
    out
}

} // verus!
