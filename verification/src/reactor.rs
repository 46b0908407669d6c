//! Per-shard reactor state machine.
//!
//! One shard owns a bounded connection table, one active batch
//! accumulator, at most one write-ahead-log flush in flight, and the log's
//! append offset. The surrounding event loop performs the actual I/O: it
//! accepts sockets, reads bytes, writes the log and the responses, and
//! reports each completion here. This module makes every decision —
//! which slot a connection gets, how bytes reassemble into frames, what
//! gets batched, when the batch flushes, and which acknowledgments go out
//! after a flush completes — and its contracts pin those decisions down.
//!
//! Durability ordering: acknowledgments for mutations are produced only by
//! `on_batch_complete`, the handler of a finished log write, and they
//! acknowledge exactly the frames inside that write. A mutation is never
//! acknowledged before the write that contains it has completed.

use vstd::prelude::*;

verus! {

use vstd::pervasive::VecAdditionalExecFns;
use crate::batch::BATCH_CAPACITY;
use crate::batch::BatchAccumulator;
use crate::batch::PAGE_SIZE;
use crate::framing::Frame;
use crate::framing::FrameBuffer;
use crate::framing::FrameData;
use crate::framing::FrameStep;
use crate::framing::concat_frame_bytes;
use crate::framing::frame_bytes;
use crate::framing::frame_wf;
use crate::framing::lemma_concat_count_bound;
use crate::framing::lemma_concat_snoc;
use crate::framing::lemma_parse_concat_prefix;
use crate::framing::lemma_parse_zeros;
use crate::framing::parse_concat;
use crate::framing::parse_frames;
use crate::framing::parse_violation;
use crate::protocol::HEADER_LEN;
use crate::protocol::OP_SEARCH;
use crate::protocol::OP_UPSERT;
use crate::protocol::ResponseHeader;
use crate::protocol::STATUS_ERR;
use crate::protocol::STATUS_OK;
use crate::protocol::VBP_MAGIC;
use crate::protocol::encode_header;
use crate::protocol::encode_response;
use crate::protocol::spec_response_bytes;
use crate::wal::WalEntry;
use crate::wal::WalManager;

/// Default number of connection slots per shard.
pub const CONN_SLOTS: usize = 32;

/// Receive window per connection.
pub const RECV_BUFFER_CAPACITY: usize = 65536;

/// A slot stops framing new requests once this many are outstanding.
pub const PENDING_OPS_CAP: usize = 64;

/// Completion tag class: a new connection was accepted.
pub const TAG_ACCEPT: u64 = 0xFFFF_0000;

/// Completion tag class: a socket read finished; low bits carry the slot.
pub const TAG_READ_PREFIX: u64 = 0xAAAA_0000;

/// Completion tag class: a single-entry log write finished.
pub const TAG_WAL_PREFIX: u64 = 0xBBBB_0000;

/// Completion tag class: a socket write finished; low bits carry the slot.
pub const TAG_WRITE_PREFIX: u64 = 0xCCCC_0000;

/// Completion tag: the batched log write finished.
pub const TAG_BATCH_WRITE: u64 = 0xDDDD_0000;

/// The slot index carried in a completion tag's low 16 bits.
pub fn tag_slot(tag: u64) -> (r: u64)
    ensures
        r == tag & 0xFFFF,
        r < 0x10000,
{
    let r = tag & 0xFFFF;
    proof {
        assert(tag & 0xFFFF < 0x10000) by (bit_vector);
    }
    r
}

/// The class bits of a completion tag.
pub fn tag_class(tag: u64) -> (r: u64)
    ensures
        r == tag & 0xFFFF_0000,
{
    tag & 0xFFFF_0000
}

/// Why the active batch was flushed.
#[derive(Clone, Copy, Debug, PartialEq, Eq, Structural)]
pub enum FlushReason {
    /// An append would have exceeded the batch capacity.
    Full,
    /// End of tick: the reactor went idle with staged data.
    Eot,
}

/// A log write the event loop must submit: `bytes` at `offset`.
pub struct FlushRequest {
    pub offset: u64,
    pub bytes: Vec<u8>,
    pub reason: FlushReason,
}

/// A socket read the event loop must arm for `slot`, delivering at most
/// `max_len` bytes.
pub struct ReadRequest {
    pub slot: usize,
    pub max_len: usize,
}

/// A socket write the event loop must submit for `slot`.
pub struct WriteRequest {
    pub slot: usize,
    pub bytes: Vec<u8>,
}

/// A search request the event loop must run against the index.
pub struct SearchTask {
    pub request_id: u64,
    pub payload: Vec<u8>,
}

impl View for SearchTask {
    type V = (u64, Seq<u8>);

    open spec fn view(&self) -> (u64, Seq<u8>) {
        (self.request_id, self.payload@)
    }
}

/// The search requests among a run of frames, in order.
pub open spec fn searches_of(fs: Seq<FrameData>) -> Seq<(u64, Seq<u8>)>
    decreases fs.len(),
{
    if fs.len() == 0 {
        Seq::<(u64, Seq<u8>)>::empty()
    } else if fs[0].header.opcode == OP_SEARCH {
        seq![(fs[0].header.request_id, fs[0].payload)] + searches_of(fs.skip(1))
    } else {
        searches_of(fs.skip(1))
    }
}

/// Appending one frame appends its search request, if it is one.
pub proof fn lemma_searches_of_snoc(fs: Seq<FrameData>, f: FrameData)
    ensures
        searches_of(fs.push(f)) == if f.header.opcode == OP_SEARCH {
            searches_of(fs).push((f.header.request_id, f.payload))
        } else {
            searches_of(fs)
        },
    decreases fs.len(),
{
    let whole = fs.push(f);
    if fs.len() == 0 {
        let tail = whole.skip(1);
        assert(whole[0] == f);
        assert(tail =~= Seq::<FrameData>::empty());
        assert(searches_of(tail) == Seq::<(u64, Seq<u8>)>::empty());
        if f.header.opcode == OP_SEARCH {
            assert(searches_of(whole) =~= searches_of(fs).push((f.header.request_id, f.payload)));
        } else {
            assert(searches_of(whole) =~= searches_of(fs));
        }
    } else {
        assert(whole[0] == fs[0]);
        assert(whole.skip(1) =~= fs.skip(1).push(f));
        lemma_searches_of_snoc(fs.skip(1), f);
        if f.header.opcode == OP_SEARCH {
            assert(searches_of(whole) =~= searches_of(fs).push((f.header.request_id, f.payload)));
        } else {
            assert(searches_of(whole) =~= searches_of(fs));
        }
    }
}

/// The upsert requests among a run of frames, in order.
pub open spec fn upserts_of(fs: Seq<FrameData>) -> Seq<FrameData>
    decreases fs.len(),
{
    if fs.len() == 0 {
        Seq::<FrameData>::empty()
    } else if fs[0].header.opcode == OP_UPSERT {
        seq![fs[0]] + upserts_of(fs.skip(1))
    } else {
        upserts_of(fs.skip(1))
    }
}

/// Appending one frame appends it to the upserts, if it is one.
pub proof fn lemma_upserts_of_snoc(fs: Seq<FrameData>, f: FrameData)
    ensures
        upserts_of(fs.push(f)) == if f.header.opcode == OP_UPSERT {
            upserts_of(fs).push(f)
        } else {
            upserts_of(fs)
        },
    decreases fs.len(),
{
    let whole = fs.push(f);
    if fs.len() == 0 {
        let tail = whole.skip(1);
        assert(whole[0] == f);
        assert(tail =~= Seq::<FrameData>::empty());
        assert(upserts_of(tail) == Seq::<FrameData>::empty());
        if f.header.opcode == OP_UPSERT {
            assert(upserts_of(whole) =~= upserts_of(fs).push(f));
        } else {
            assert(upserts_of(whole) =~= upserts_of(fs));
        }
    } else {
        assert(whole[0] == fs[0]);
        assert(whole.skip(1) =~= fs.skip(1).push(f));
        lemma_upserts_of_snoc(fs.skip(1), f);
        if f.header.opcode == OP_UPSERT {
            assert(upserts_of(whole) =~= upserts_of(fs).push(f));
        } else {
            assert(upserts_of(whole) =~= upserts_of(fs));
        }
    }
}

/// How many routing tags of a batch name connection `slot`.
pub open spec fn tag_count(tags: Seq<u64>, slot: int) -> int
    decreases tags.len(),
{
    if tags.len() == 0 {
        0
    } else {
        (if tags[0] == slot {
            1int
        } else {
            0int
        }) + tag_count(tags.skip(1), slot)
    }
}

/// Appending one tag raises exactly its slot's count.
pub proof fn lemma_tag_count_snoc(tags: Seq<u64>, t: u64, slot: int)
    ensures
        tag_count(tags.push(t), slot) == tag_count(tags, slot) + (if t == slot {
            1int
        } else {
            0int
        }),
    decreases tags.len(),
{
    let whole = tags.push(t);
    if tags.len() == 0 {
        assert(whole[0] == t);
        assert(whole.skip(1) =~= Seq::<u64>::empty());
        assert(tag_count(whole.skip(1), slot) == 0);
        assert(tag_count(tags, slot) == 0);
    } else {
        assert(whole[0] == tags[0]);
        assert(whole.skip(1) =~= tags.skip(1).push(t));
        lemma_tag_count_snoc(tags.skip(1), t, slot);
        assert(tag_count(whole, slot) == (if whole[0] == slot { 1int } else { 0int })
            + tag_count(whole.skip(1), slot));
    }
}

/// The response header of one grouped upsert acknowledgment: success,
/// upsert opcode, zero request identifier.
pub open spec fn ok_upsert_ack() -> Seq<u8> {
    spec_response_bytes(
        ResponseHeader {
            magic: VBP_MAGIC,
            status: STATUS_OK,
            opcode: OP_UPSERT,
            payload_len: 0,
            request_id: 0,
        },
    )
}

/// `n` grouped upsert acknowledgments back to back.
pub open spec fn ok_upsert_acks(n: int) -> Seq<u8>
    decreases n,
{
    if n <= 0 {
        Seq::<u8>::empty()
    } else {
        ok_upsert_acks(n - 1) + ok_upsert_ack()
    }
}

/// Grouped acknowledgments occupy 16 bytes each.
pub proof fn lemma_ok_upsert_acks_len(n: int)
    requires
        n >= 0,
    ensures
        ok_upsert_acks(n).len() == 16 * n,
    decreases n,
{
    if n > 0 {
        lemma_ok_upsert_acks_len(n - 1);
        crate::protocol::lemma_response_roundtrip(
            ResponseHeader {
                magic: VBP_MAGIC,
                status: STATUS_OK,
                opcode: OP_UPSERT,
                payload_len: 0,
                request_id: 0,
            },
        );
    }
}

/// Per-slot outcome of one batch completion: a connection that is open
/// and owns `c > 0` frames of the flushed batch gains `c` grouped
/// acknowledgments — drained into one aggregated write (leaving a write
/// in flight) when the slot was free for writing, queued behind the
/// in-flight write otherwise. Every other slot's egress state is
/// untouched.
pub open spec fn ack_outcome(pre: &ShardCore, post: &ShardCore, i: int) -> bool {
    let c = tag_count(pre.spec_inflight_tags(), i);
    if pre.slot_open(i) && c > 0 {
        if pre.slot_write_in_flight(i) {
            &&& post.slot_egress(i) == pre.slot_egress(i) + ok_upsert_acks(c)
            &&& post.slot_write_in_flight(i)
        } else {
            &&& post.slot_egress(i).len() == 0
            &&& post.slot_write_in_flight(i)
        }
    } else {
        &&& post.slot_egress(i) == pre.slot_egress(i)
        &&& post.slot_write_in_flight(i) == pre.slot_write_in_flight(i)
    }
}

/// What one ingress pass asks of the event loop.
pub struct IngressReport {
    /// The connection violated the protocol and its slot was released.
    pub closed: bool,
    /// Search requests to execute, in arrival order.
    pub searches: Vec<SearchTask>,
    /// A batch flush to submit to the log.
    pub flush: Option<FlushRequest>,
    /// A response write to submit.
    pub write: Option<WriteRequest>,
    /// A receive to re-arm.
    pub read: Option<ReadRequest>,
    /// The frames this pass consumed, in order.
    pub handled: Ghost<Seq<FrameData>>,
}

/// What a finished batch write asks of the event loop.
pub struct BatchReport {
    /// The persisted frames, to be applied to the index in order.
    pub entries: Vec<WalEntry>,
    /// Aggregated acknowledgment writes, one per connection that has acks
    /// queued and no write in flight.
    pub writes: Vec<WriteRequest>,
    /// Slots that paused on batch backpressure; run ingress again on each.
    pub resume: Vec<usize>,
}

/// One connection slot. The two in-flight flags are single booleans, so at
/// most one read and at most one write can ever be outstanding per
/// connection; the receive window keeps `consumed <= accumulated <=
/// capacity` by construction.
struct ConnSlot {
    frames: FrameBuffer,
    pending_ops: usize,
    read_in_flight: bool,
    write_in_flight: bool,
    pending_acks: usize,
    egress: Vec<u8>,
    open: bool,
    paused: bool,
}

impl ConnSlot {
    spec fn wf(&self) -> bool {
        &&& self.frames.wf()
        &&& self.frames.spec_capacity() == RECV_BUFFER_CAPACITY
        &&& self.pending_ops <= PENDING_OPS_CAP
        &&& self.egress@.len() == self.pending_acks * 16
    }

    fn fresh() -> (r: Self)
        ensures
            r.wf(),
            !r.open,
            !r.paused,
            !r.read_in_flight,
            !r.write_in_flight,
            r.frames.pending() == Seq::<u8>::empty(),
    {
        ConnSlot {
            frames: FrameBuffer::new(RECV_BUFFER_CAPACITY),
            pending_ops: 0,
            read_in_flight: false,
            write_in_flight: false,
            pending_acks: 0,
            egress: Vec::new(),
            open: false,
            paused: false,
        }
    }
}

/// The shard core: connection table, batch pipeline, log offsets, and the
/// ghost history of what has been durably committed.
pub struct ShardCore {
    slots: Vec<ConnSlot>,
    active_batch: BatchAccumulator,
    active_frames: Ghost<Seq<FrameData>>,
    flushing: bool,
    flushing_data: Vec<u8>,
    flushing_frames: Ghost<Seq<FrameData>>,
    flushing_tags: Vec<u64>,
    wal: WalManager,
    boot_offset: u64,
    durable_len: Ghost<int>,
    committed: Ghost<Seq<FrameData>>,
    is_shutting_down: bool,
}

impl ShardCore {
    /// Number of connection slots.
    pub closed spec fn spec_slot_count(&self) -> int {
        self.slots@.len() as int
    }

    /// Whether slot `i` holds a live connection.
    pub closed spec fn slot_open(&self, i: int) -> bool {
        self.slots@[i].open
    }

    /// The bytes received on slot `i` and not yet framed.
    pub closed spec fn slot_pending(&self, i: int) -> Seq<u8> {
        self.slots@[i].frames.pending()
    }

    /// Whether a read is outstanding on slot `i`.
    pub closed spec fn slot_read_in_flight(&self, i: int) -> bool {
        self.slots@[i].read_in_flight
    }

    /// Whether a write is outstanding on slot `i`.
    pub closed spec fn slot_write_in_flight(&self, i: int) -> bool {
        self.slots@[i].write_in_flight
    }

    /// Room left in slot `i`'s receive window.
    pub closed spec fn slot_room(&self, i: int) -> int {
        self.slots@[i].frames.spec_capacity() - self.slots@[i].frames.spec_accumulated()
    }

    /// The frames staged in the active batch, in order.
    pub closed spec fn spec_staged(&self) -> Seq<FrameData> {
        self.active_frames@
    }

    /// Whether a batch write is in flight.
    pub closed spec fn spec_flushing(&self) -> bool {
        self.flushing
    }

    /// The frames inside the in-flight batch write.
    pub closed spec fn spec_inflight(&self) -> Seq<FrameData> {
        self.flushing_frames@
    }

    /// Every frame whose log write has completed, in commit order. The
    /// acknowledgments handed out by `on_batch_complete` correspond
    /// one-to-one to the frames this history gains.
    pub closed spec fn spec_committed(&self) -> Seq<FrameData> {
        self.committed@
    }

    /// The log append offset.
    pub closed spec fn spec_offset(&self) -> u64 {
        self.wal.spec_offset()
    }

    /// Whether shutdown has been requested.
    pub closed spec fn spec_stopping(&self) -> bool {
        self.is_shutting_down
    }

    /// Requests framed on slot `i` and not yet retired by a response
    /// write.
    pub closed spec fn slot_pending_ops(&self, i: int) -> int {
        self.slots@[i].pending_ops as int
    }

    /// Whether slot `i` paused on batch backpressure and waits for the
    /// in-flight flush to complete.
    pub closed spec fn slot_paused(&self, i: int) -> bool {
        self.slots@[i].paused
    }

    /// Response bytes queued on slot `i` and not yet submitted.
    pub closed spec fn slot_egress(&self, i: int) -> Seq<u8> {
        self.slots@[i].egress@
    }

    /// The routing tags of the in-flight batch write, one per frame.
    pub closed spec fn spec_inflight_tags(&self) -> Seq<u64> {
        self.flushing_tags@
    }

    /// The full mutation ledger: every upsert frame accepted so far, in
    /// order — committed, then in flight, then staged. Ingress appends to
    /// it and nothing ever leaves it.
    pub open spec fn spec_ledger(&self) -> Seq<FrameData> {
        self.spec_committed() + self.spec_inflight() + self.spec_staged()
    }

    /// Slot `i` is bit-for-bit the same in both states.
    pub closed spec fn slot_unchanged(&self, o: &Self, i: int) -> bool {
        self.slots@[i] == o.slots@[i]
    }

    /// The whole connection table is the same in both states.
    pub closed spec fn slots_unchanged(&self, o: &Self) -> bool {
        self.slots@ == o.slots@
    }

    /// Well-formedness: every slot keeps its window invariants; the active
    /// batch holds exactly the concatenation of the staged frames, one
    /// routing tag each; the in-flight write parses back to exactly the
    /// frames it carries, is sector-aligned and non-empty; and the log
    /// offset equals the boot offset plus all completed batch lengths plus
    /// the in-flight length — each batch a sector multiple, so the log
    /// only ever grows by aligned writes.
    pub closed spec fn wf(&self) -> bool {
        &&& 1 <= self.slots@.len() <= 0x10000
        &&& forall|i: int| 0 <= i < self.slots@.len() ==> (#[trigger] self.slots@[i]).wf()
        &&& forall|i: int|
            0 <= i < self.slots@.len() ==> ((#[trigger] self.slots@[i]).paused ==> self.flushing)
        &&& self.active_batch.wf()
        &&& self.active_batch.content() == concat_frame_bytes(self.active_frames@)
        &&& forall|k: int|
            0 <= k < self.active_frames@.len() ==> #[trigger] frame_wf(self.active_frames@[k])
        &&& self.active_batch.spec_tags().len() == self.active_frames@.len()
        &&& forall|k: int|
            0 <= k < self.active_batch.spec_tags().len() ==> (
            #[trigger] self.active_batch.spec_tags()[k] as int) < self.slots@.len()
        &&& (!self.flushing ==> self.flushing_data@.len() == 0 && self.flushing_frames@.len() == 0
            && self.flushing_tags@.len() == 0)
        &&& (self.flushing ==> {
            &&& parse_frames(self.flushing_data@) == self.flushing_frames@
            &&& forall|k: int|
                0 <= k < self.flushing_frames@.len() ==> #[trigger] frame_wf(
                    self.flushing_frames@[k],
                )
            &&& self.flushing_data@.len() as int % (PAGE_SIZE as int) == 0
            &&& 0 < self.flushing_data@.len() <= BATCH_CAPACITY
            &&& self.flushing_tags@.len() == self.flushing_frames@.len()
            &&& forall|k: int|
                0 <= k < self.flushing_tags@.len() ==> (#[trigger] self.flushing_tags@[k] as int)
                    < self.slots@.len()
        })
        &&& self.durable_len@ >= 0
        &&& self.durable_len@ % (PAGE_SIZE as int) == 0
        &&& self.wal.spec_offset() == self.boot_offset + self.durable_len@ + (if self.flushing {
            self.flushing_data@.len() as int
        } else {
            0
        })
        &&& forall|k: int|
            0 <= k < self.committed@.len() ==> #[trigger] frame_wf(self.committed@[k])
    }

    /// A fresh shard core with `num_slots` connection slots, appending to
    /// a log whose current size is `boot_offset`.
    pub fn new(num_slots: usize, boot_offset: u64) -> (r: Self)
        requires
            1 <= num_slots <= 0x10000,
        ensures
            r.wf(),
            r.spec_slot_count() == num_slots,
            r.spec_committed() == Seq::<FrameData>::empty(),
            r.spec_staged() == Seq::<FrameData>::empty(),
            !r.spec_flushing(),
            r.spec_offset() == boot_offset,
            !r.spec_stopping(),
            forall|i: int| 0 <= i < num_slots ==> !r.slot_open(i),
    {
        let mut slots: Vec<ConnSlot> = Vec::new();
        let mut i: usize = 0;
        while i < num_slots
            invariant
                i <= num_slots,
                slots@.len() == i,
                forall|j: int|
                    0 <= j < i ==> (#[trigger] slots@[j]).wf() && !slots@[j].open
                        && !slots@[j].paused,
            decreases num_slots - i,
        {
            slots.push(ConnSlot::fresh());
            i += 1;
        }
        let r = ShardCore {
            slots,
            active_batch: BatchAccumulator::new(),
            active_frames: Ghost(Seq::<FrameData>::empty()),
            flushing: false,
            flushing_data: Vec::new(),
            flushing_frames: Ghost(Seq::<FrameData>::empty()),
            flushing_tags: Vec::new(),
            wal: WalManager::new(boot_offset),
            boot_offset,
            durable_len: Ghost(0int),
            committed: Ghost(Seq::<FrameData>::empty()),
            is_shutting_down: false,
        };
        proof {
            assert(r.active_batch.content() =~= concat_frame_bytes(r.active_frames@));
        }
        r
    }

    /// Assigns the lowest free slot to a newly accepted connection and
    /// arms its first read, or reports saturation: with every slot open
    /// the connection must be closed immediately.
    pub fn on_accept(&mut self) -> (r: Option<usize>)
        requires
            old(self).wf(),
        ensures
            final(self).wf(),
            final(self).spec_slot_count() == old(self).spec_slot_count(),
            final(self).spec_committed() == old(self).spec_committed(),
            r is None <==> (forall|i: int|
                0 <= i < old(self).spec_slot_count() ==> old(self).slot_open(i)),
            r is None ==> *final(self) == *old(self),
            r is Some ==> {
                let i = r.unwrap() as int;
                &&& 0 <= i < old(self).spec_slot_count()
                &&& !old(self).slot_open(i)
                &&& (forall|j: int| 0 <= j < i ==> old(self).slot_open(j))
                &&& final(self).slot_open(i)
                &&& final(self).slot_read_in_flight(i)
                &&& final(self).slot_pending(i) == Seq::<u8>::empty()
                &&& (forall|j: int|
                    0 <= j < old(self).spec_slot_count() && j != i
                        ==> final(self).slot_unchanged(old(self), j))
            },
    {
        let n = self.slots.len();
        let mut i: usize = 0;
        while i < n
            invariant
                i <= n,
                n == self.slots@.len(),
                self.wf(),
                *self == *old(self),
                forall|j: int| 0 <= j < i ==> old(self).slot_open(j),
            decreases n - i,
        {
            if !self.slots[i].open {
                let mut fresh = ConnSlot::fresh();
                fresh.open = true;
                fresh.read_in_flight = true;
                let ghost slots0 = self.slots@;
                proof {
                    assert(fresh.frames.wf());
                    assert(fresh.wf());
                }
                self.slots.set(i, fresh);
                proof {
                    assert(!old(self).slot_open(i as int));
                    assert(self.slots@[i as int] == fresh);
                    assert forall|j: int|
                        0 <= j < self.slots@.len() implies (#[trigger] self.slots@[j]).wf() && (
                    self.slots@[j].paused ==> self.flushing) by {
                        if j != i as int {
                            assert(self.slots@[j] == slots0[j]);
                            assert(slots0[j] == old(self).slots@[j]);
                            assert((old(self).slots@[j]).wf());
                            assert(old(self).slots@[j].paused ==> old(self).flushing);
                        } else {
                            assert(self.slots@[j] == fresh);
                            assert(fresh.wf());
                            assert(!fresh.paused);
                        }
                    }
                    assert(self.slots@[i as int].frames.pending() =~= Seq::<u8>::empty());
                }
                return Some(i);
            }
            i += 1;
        }
        None
    }

    /// The peer closed the connection (a read completed with zero bytes):
    /// release the slot.
    pub fn on_read_eof(&mut self, idx: usize)
        requires
            old(self).wf(),
            0 <= idx < old(self).spec_slot_count(),
        ensures
            final(self).wf(),
            final(self).spec_slot_count() == old(self).spec_slot_count(),
            final(self).spec_committed() == old(self).spec_committed(),
            !final(self).slot_open(idx as int),
            !final(self).slot_read_in_flight(idx as int),
    {
        self.slots[idx].read_in_flight = false;
        self.slots[idx].open = false;
    }

    /// A socket read delivered `data` on `idx`: extend the slot's window
    /// and run the framing loop. On return the read flag reflects exactly
    /// whether a new receive was armed.
    pub fn on_read_complete(&mut self, idx: usize, data: &[u8]) -> (r: IngressReport)
        requires
            old(self).wf(),
            0 <= idx < old(self).spec_slot_count(),
            old(self).slot_read_in_flight(idx as int),
            data@.len() <= old(self).slot_room(idx as int),
        ensures
            final(self).wf(),
            final(self).spec_slot_count() == old(self).spec_slot_count(),
            final(self).spec_committed() == old(self).spec_committed(),
            parse_frames(old(self).slot_pending(idx as int) + data@) == r.handled@ + parse_frames(
                final(self).slot_pending(idx as int),
            ),
            r.searches@.map_values(|t: SearchTask| t@) == searches_of(r.handled@),
            r.closed ==> parse_violation(old(self).slot_pending(idx as int) + data@),
            final(self).spec_ledger() == old(self).spec_ledger() + upserts_of(r.handled@),
            ({
                ||| !final(self).slot_open(idx as int)
                ||| final(self).slot_paused(idx as int)
                ||| final(self).slot_pending_ops(idx as int) >= PENDING_OPS_CAP as int
                ||| !crate::framing::has_complete_frame(final(self).slot_pending(idx as int))
                ||| final(self).spec_offset() + BATCH_CAPACITY > u64::MAX
            }),
            r.read is Some ==> r.read.unwrap().slot == idx && final(self).slot_read_in_flight(
                idx as int,
            ),
            r.read is None ==> !final(self).slot_read_in_flight(idx as int),
    {
        self.slots[idx].read_in_flight = false;
        self.slots[idx].frames.receive(data);
        self.process_ingress(idx)
    }

    /// The framing loop: peels complete frames off the slot's window until
    /// input runs short, the outstanding-request cap bites, or the batch
    /// pipeline pushes back. Upserts are staged into the active batch
    /// (flushing it first when full); searches are answered immediately
    /// and handed back to be executed; unknown opcodes get an error
    /// response. A magic mismatch releases the slot.
    ///
    /// Progress: on return the slot is released, paused on backpressure,
    /// at the outstanding-request cap, out of complete frames, or the log
    /// offset has no headroom left. Effect: the mutation ledger gains
    /// exactly the upsert frames among the handled ones.
    #[verifier::rlimit(100)]
    pub fn process_ingress(&mut self, idx: usize) -> (r: IngressReport)
        requires
            old(self).wf(),
            0 <= idx < old(self).spec_slot_count(),
        ensures
            final(self).wf(),
            final(self).spec_slot_count() == old(self).spec_slot_count(),
            final(self).spec_committed() == old(self).spec_committed(),
            parse_frames(old(self).slot_pending(idx as int)) == r.handled@ + parse_frames(
                final(self).slot_pending(idx as int),
            ),
            r.searches@.map_values(|t: SearchTask| t@) == searches_of(r.handled@),
            r.closed ==> parse_violation(old(self).slot_pending(idx as int)),
            final(self).spec_ledger() == old(self).spec_ledger() + upserts_of(r.handled@),
            ({
                ||| !final(self).slot_open(idx as int)
                ||| final(self).slot_paused(idx as int)
                ||| final(self).slot_pending_ops(idx as int) >= PENDING_OPS_CAP as int
                ||| !crate::framing::has_complete_frame(final(self).slot_pending(idx as int))
                ||| final(self).spec_offset() + BATCH_CAPACITY > u64::MAX
            }),
            r.read is Some ==> r.read.unwrap().slot == idx && final(self).slot_read_in_flight(
                idx as int,
            ),
            r.read is None ==> final(self).slot_read_in_flight(idx as int) == old(self).slot_read_in_flight(idx as int),
    {
        let ghost pending0 = self.slots@[idx as int].frames.pending();
        let ghost rif0 = self.slots@[idx as int].read_in_flight;
        let mut report = IngressReport {
            closed: false,
            searches: Vec::new(),
            flush: None,
            write: None,
            read: None,
            handled: Ghost(Seq::<FrameData>::empty()),
        };
        proof {
            assert(report.searches@.map_values(|t: SearchTask| t@) =~= searches_of(
                report.handled@,
            ));
            assert(parse_frames(pending0) =~= report.handled@ + parse_frames(pending0));
            assert(upserts_of(report.handled@) =~= Seq::<FrameData>::empty());
            assert(self.spec_ledger() =~= self.spec_ledger() + upserts_of(report.handled@));
        }
        if !self.slots[idx].open {
            return report;
        }
        loop
            invariant_except_break
                !report.closed,
                report.read is None,
                self.slots@[idx as int].read_in_flight == rif0,
            invariant
                0 <= idx < self.slots@.len(),
                self.wf(),
                self.slots@.len() == old(self).slots@.len(),
                self.committed@ == old(self).committed@,
                pending0 == old(self).slots@[idx as int].frames.pending(),
                rif0 == old(self).slots@[idx as int].read_in_flight,
                parse_frames(pending0) == report.handled@ + parse_frames(
                    self.slots@[idx as int].frames.pending(),
                ),
                parse_violation(pending0) == parse_violation(
                    self.slots@[idx as int].frames.pending(),
                ),
                report.searches@.map_values(|t: SearchTask| t@) == searches_of(report.handled@),
                self.spec_ledger() == old(self).spec_ledger() + upserts_of(report.handled@),
            ensures
                self.wf(),
                self.slots@.len() == old(self).slots@.len(),
                self.committed@ == old(self).committed@,
                parse_frames(pending0) == report.handled@ + parse_frames(
                    self.slots@[idx as int].frames.pending(),
                ),
                report.searches@.map_values(|t: SearchTask| t@) == searches_of(report.handled@),
                report.closed ==> parse_violation(pending0),
                self.spec_ledger() == old(self).spec_ledger() + upserts_of(report.handled@),
                ({
                    ||| !self.slots@[idx as int].open
                    ||| self.slots@[idx as int].paused
                    ||| self.slots@[idx as int].pending_ops >= PENDING_OPS_CAP
                    ||| !crate::framing::has_complete_frame(
                        self.slots@[idx as int].frames.pending(),
                    )
                    ||| self.wal.spec_offset() + BATCH_CAPACITY > u64::MAX
                }),
                report.read is Some ==> report.read.unwrap().slot == idx
                    && self.slots@[idx as int].read_in_flight,
                report.read is None ==> self.slots@[idx as int].read_in_flight == rif0,
            decreases self.slots@[idx as int].frames.pending().len(),
        {
            if self.slots[idx].pending_ops >= PENDING_OPS_CAP {
                break;
            }
            let step = self.slots[idx].frames.next_step();
            match step {
                FrameStep::NeedMore => {
                    proof {
                        assert(!crate::framing::has_complete_frame(
                            self.slots@[idx as int].frames.pending(),
                        ));
                    }
                    self.compact_slot(idx);
                    if self.slots[idx].pending_ops < PENDING_OPS_CAP
                        && !self.slots[idx].read_in_flight {
                        let room = self.slots[idx].frames.room();
                        if room > 0 {
                            self.slots[idx].read_in_flight = true;
                            report.read = Some(ReadRequest { slot: idx, max_len: room });
                        }
                    }
                    break;
                },
                FrameStep::BadMagic => {
                    self.slots[idx].open = false;
                    report.closed = true;
                    proof {
                        assert(parse_violation(self.slots@[idx as int].frames.pending()));
                    }
                    break;
                },
                FrameStep::Ready(h) => {
                    proof {
                        self.slots@[idx as int].frames.lemma_pending_within();
                        assert((self.slots@[idx as int]).wf());
                    }
                    let ghost hs0 = report.handled@;
                    let ghost sm0 = report.searches@.map_values(|t: SearchTask| t@);
                    let ghost ledger0 = self.spec_ledger();
                    if h.opcode == OP_UPSERT {
                        let flen = HEADER_LEN + h.payload_len as usize;
                        let rem = self.active_batch.remaining();
                        let fits = flen <= rem;
                        if !fits {
                            if self.flushing {
                                // Batch full and the pipeline is busy:
                                // leave the frame in the window and wait
                                // for the flush to complete.
                                self.slots[idx].paused = true;
                                break;
                            }
                            proof {
                                // A batch too full for a frame cannot be
                                // empty: a frame never exceeds a whole
                                // batch.
                                self.active_batch.lemma_content_bound();
                                if self.active_frames@.len() == 0 {
                                    assert(self.active_batch.content()
                                        =~= concat_frame_bytes(self.active_frames@));
                                }
                            }
                            let req = self.flush_active_batch(FlushReason::Full);
                            if req.is_none() {
                                // The log offset has no headroom left:
                                // stop framing; the frame stays pending.
                                break;
                            }
                            proof {
                                assert(self.active_batch.content() =~= concat_frame_bytes(
                                    self.active_frames@,
                                ));
                                assert(self.spec_ledger() =~= ledger0);
                            }
                            report.flush = req;
                        }
                        let f = self.take_slot_frame(idx);
                        let ghost fd = f@;
                        let mut wire = encode_header(&f.header);
                        wire.extend_from_slice(f.payload.as_slice());
                        proof {
                            assert(wire@ =~= frame_bytes(fd));
                            crate::protocol::lemma_header_roundtrip(fd.header);
                            self.active_batch.lemma_content_bound();
                            assert(self.active_batch.content().len() + wire@.len()
                                <= BATCH_CAPACITY as int);
                        }
                        let ghost staged0 = self.active_frames@;
                        let push_res = self.active_batch.try_add(wire.as_slice(), idx as u64);
                        match push_res {
                            Ok(_) => {
                                self.active_frames = Ghost(staged0.push(fd));
                                proof {
                                    lemma_concat_snoc(staged0, fd);
                                    assert(self.active_batch.content() =~= concat_frame_bytes(
                                        self.active_frames@,
                                    ));
                                }
                            },
                            Err(_) => {
                                proof {
                                    assert(false);
                                }
                            },
                        }
                        self.bump_pending(idx);
                        report.handled = Ghost(hs0.push(fd));
                        proof {
                            lemma_searches_of_snoc(hs0, fd);
                            lemma_upserts_of_snoc(hs0, fd);
                            assert(fd.header.opcode == OP_UPSERT);
                            assert(hs0.push(fd) =~= hs0 + seq![fd]);
                            assert((hs0 + seq![fd]) + parse_frames(
                                self.slots@[idx as int].frames.pending(),
                            ) =~= hs0 + (seq![fd] + parse_frames(
                                self.slots@[idx as int].frames.pending(),
                            )));
                            assert(fd.header.opcode != OP_SEARCH);
                            assert(report.searches@.map_values(|t: SearchTask| t@)
                                =~= searches_of(report.handled@));
                            assert(self.spec_ledger() =~= ledger0 + seq![fd]);
                            assert(upserts_of(report.handled@) =~= upserts_of(hs0) + seq![fd]);
                            assert(ledger0 == old(self).spec_ledger() + upserts_of(hs0));
                            assert((old(self).spec_ledger() + upserts_of(hs0)) + seq![fd]
                                =~= old(self).spec_ledger() + (upserts_of(hs0) + seq![fd]));
                            assert(self.spec_ledger() =~= old(self).spec_ledger() + upserts_of(
                                report.handled@,
                            ));
                        }
                    } else if h.opcode == OP_SEARCH {
                        let f = self.take_slot_frame(idx);
                        let ghost fd = f@;
                        self.queue_response(idx, STATUS_OK, OP_SEARCH, h.request_id);
                        let task = SearchTask { request_id: h.request_id, payload: f.payload };
                        proof {
                            assert(task@ == (fd.header.request_id, fd.payload));
                        }
                        report.searches.push(task);
                        self.bump_pending(idx);
                        report.handled = Ghost(hs0.push(fd));
                        proof {
                            lemma_searches_of_snoc(hs0, fd);
                            lemma_upserts_of_snoc(hs0, fd);
                            assert(fd.header.opcode != OP_UPSERT);
                            assert(hs0.push(fd) =~= hs0 + seq![fd]);
                            assert((hs0 + seq![fd]) + parse_frames(
                                self.slots@[idx as int].frames.pending(),
                            ) =~= hs0 + (seq![fd] + parse_frames(
                                self.slots@[idx as int].frames.pending(),
                            )));
                            assert(report.searches@.map_values(|t: SearchTask| t@)
                                =~= sm0.push(task@));
                            assert(report.searches@.map_values(|t: SearchTask| t@)
                                =~= searches_of(report.handled@));
                            assert(self.spec_ledger() =~= old(self).spec_ledger() + upserts_of(
                                report.handled@,
                            ));
                        }
                    } else {
                        let f = self.take_slot_frame(idx);
                        let ghost fd = f@;
                        self.queue_response(idx, STATUS_ERR, h.opcode, h.request_id);
                        self.bump_pending(idx);
                        report.handled = Ghost(hs0.push(fd));
                        proof {
                            lemma_searches_of_snoc(hs0, fd);
                            lemma_upserts_of_snoc(hs0, fd);
                            assert(fd.header.opcode != OP_UPSERT);
                            assert(hs0.push(fd) =~= hs0 + seq![fd]);
                            assert((hs0 + seq![fd]) + parse_frames(
                                self.slots@[idx as int].frames.pending(),
                            ) =~= hs0 + (seq![fd] + parse_frames(
                                self.slots@[idx as int].frames.pending(),
                            )));
                            assert(fd.header.opcode != OP_SEARCH);
                            assert(report.searches@.map_values(|t: SearchTask| t@)
                                =~= searches_of(report.handled@));
                            assert(self.spec_ledger() =~= old(self).spec_ledger() + upserts_of(
                                report.handled@,
                            ));
                        }
                    }
                    if self.slots[idx].pending_ops >= PENDING_OPS_CAP {
                        break;
                    }
                },
            }
        }
        if self.slots[idx].open && !self.slots[idx].write_in_flight && self.slots[idx].egress.len()
            > 0 {
            let w = self.submit_write(idx);
            report.write = Some(w);
        }
        report
    }

    /// Takes the complete frame at the front of slot `idx`'s window.
    fn take_slot_frame(&mut self, idx: usize) -> (f: Frame)
        requires
            old(self).wf(),
            0 <= idx < old(self).spec_slot_count(),
            crate::framing::has_complete_frame(old(self).slot_pending(idx as int)),
        ensures
            final(self).wf(),
            (*final(self) == ShardCore {
                slots: final(self).slots,
                ..*old(self)
            }),
            final(self).slots@.len() == old(self).slots@.len(),
            (final(self).slots@ == old(self).slots@.update(
                idx as int,
                ConnSlot {
                    frames: final(self).slots@[idx as int].frames,
                    ..old(self).slots@[idx as int]
                },
            )),
            frame_wf(f@),
            f@.header == crate::protocol::spec_header_at(old(self).slot_pending(idx as int), 0),
            parse_frames(old(self).slot_pending(idx as int)) == seq![f@] + parse_frames(
                final(self).slot_pending(idx as int),
            ),
            parse_violation(old(self).slot_pending(idx as int)) == parse_violation(
                final(self).slot_pending(idx as int),
            ),
            final(self).slot_pending(idx as int).len() < old(self).slot_pending(idx as int).len(),
    {
        proof {
            assert((old(self).slots@[idx as int]).wf());
        }
        let f = self.slots[idx].frames.take_frame();
        proof {
            crate::protocol::lemma_header_roundtrip(f@.header);
        }
        f
    }

    /// Slides slot `idx`'s pending bytes to the start of its window.
    fn compact_slot(&mut self, idx: usize)
        requires
            old(self).wf(),
            0 <= idx < old(self).spec_slot_count(),
        ensures
            final(self).wf(),
            (*final(self) == ShardCore {
                slots: final(self).slots,
                ..*old(self)
            }),
            final(self).slots@.len() == old(self).slots@.len(),
            (final(self).slots@ == old(self).slots@.update(
                idx as int,
                ConnSlot {
                    frames: final(self).slots@[idx as int].frames,
                    ..old(self).slots@[idx as int]
                },
            )),
            final(self).slot_pending(idx as int) == old(self).slot_pending(idx as int),
    {
        proof {
            assert((old(self).slots@[idx as int]).wf());
        }
        self.slots[idx].frames.compact();
    }

    /// Caps an outstanding-request counter at its limit.
    fn bump_pending(&mut self, idx: usize)
        requires
            old(self).wf(),
            0 <= idx < old(self).spec_slot_count(),
            old(self).slots@[idx as int].pending_ops < PENDING_OPS_CAP,
        ensures
            final(self).wf(),
            (*final(self) == ShardCore {
                slots: final(self).slots,
                ..*old(self)
            }),
            (final(self).slots@ == old(self).slots@.update(
                idx as int,
                ConnSlot {
                    pending_ops: (old(self).slots@[idx as int].pending_ops + 1) as usize,
                    ..old(self).slots@[idx as int]
                },
            )),
    {
        let p = self.slots[idx].pending_ops;
        self.slots[idx].pending_ops = p + 1;
    }

    /// Formats one response header into the slot's egress queue.
    fn queue_response(&mut self, idx: usize, status: u8, opcode: u8, request_id: u64)
        requires
            old(self).wf(),
            0 <= idx < old(self).spec_slot_count(),
        ensures
            final(self).wf(),
            (*final(self) == ShardCore {
                slots: final(self).slots,
                ..*old(self)
            }),
            (final(self).slots@ == old(self).slots@.update(
                idx as int,
                ConnSlot {
                    pending_acks: (old(self).slots@[idx as int].pending_acks + 1) as usize,
                    egress: final(self).slots@[idx as int].egress,
                    ..old(self).slots@[idx as int]
                },
            )),
            final(self).slots@[idx as int].egress@ == old(self).slots@[idx as int].egress@
                + spec_response_bytes(
                ResponseHeader {
                    magic: VBP_MAGIC,
                    status,
                    opcode,
                    payload_len: 0,
                    request_id,
                },
            ),
    {
        let hdr = ResponseHeader { magic: VBP_MAGIC, status, opcode, payload_len: 0, request_id };
        let b = encode_response(&hdr);
        let cur = self.slots[idx].egress.len();
        proof {
            let ghost acks = old(self).slots@[idx as int].pending_acks;
            assert(acks * 16 == cur);
            assert(acks <= acks * 16) by (nonlinear_arith)
                requires
                    acks >= 0,
            ;
        }
        self.slots[idx].egress.extend_from_slice(b.as_slice());
        let a = self.slots[idx].pending_acks;
        self.slots[idx].pending_acks = a + 1;
    }

    /// Drains the slot's queued responses into one aggregated write and
    /// marks the write in flight.
    fn submit_write(&mut self, idx: usize) -> (r: WriteRequest)
        requires
            old(self).wf(),
            0 <= idx < old(self).spec_slot_count(),
            !old(self).slots@[idx as int].write_in_flight,
            old(self).slots@[idx as int].egress@.len() > 0,
        ensures
            final(self).wf(),
            (*final(self) == ShardCore {
                slots: final(self).slots,
                ..*old(self)
            }),
            final(self).slots@.len() == old(self).slots@.len(),
            r.slot == idx,
            r.bytes@ == old(self).slots@[idx as int].egress@,
            (final(self).slots@ == old(self).slots@.update(
                idx as int,
                ConnSlot {
                    pending_acks: 0,
                    egress: final(self).slots@[idx as int].egress,
                    write_in_flight: true,
                    ..old(self).slots@[idx as int]
                },
            )),
            final(self).slots@[idx as int].egress@.len() == 0,
    {
        let mut bytes: Vec<u8> = Vec::new();
        core::mem::swap(&mut bytes, &mut self.slots[idx].egress);
        self.slots[idx].pending_acks = 0;
        self.slots[idx].write_in_flight = true;
        WriteRequest { slot: idx, bytes }
    }

    /// Moves the active batch into the flush pipeline: pads it to a sector
    /// boundary, reserves its range of the log, and hands back the write
    /// to submit. Nothing happens when the batch is clean, when a flush is
    /// already in flight (at most one ever is), or in the degenerate case
    /// that the log offset has no headroom left.
    pub fn flush_active_batch(&mut self, reason: FlushReason) -> (r: Option<FlushRequest>)
        requires
            old(self).wf(),
        ensures
            final(self).wf(),
            final(self).spec_slot_count() == old(self).spec_slot_count(),
            final(self).spec_committed() == old(self).spec_committed(),
            final(self).slots_unchanged(old(self)),
            final(self).spec_stopping() == old(self).spec_stopping(),
            r is None ==> *final(self) == *old(self),
            r is Some <==> old(self).spec_staged().len() > 0 && !old(self).spec_flushing() && old(self).spec_offset() + BATCH_CAPACITY <= u64::MAX,
            r is Some ==> {
                let req = r.unwrap();
                &&& req.offset == old(self).spec_offset()
                &&& req.bytes@.len() as int % (PAGE_SIZE as int) == 0
                &&& 0 < req.bytes@.len() <= BATCH_CAPACITY
                &&& parse_frames(req.bytes@) == old(self).spec_staged()
                &&& req.reason == reason
                &&& final(self).spec_offset() == old(self).spec_offset() + req.bytes@.len()
                &&& final(self).spec_flushing()
                &&& final(self).spec_inflight() == old(self).spec_staged()
                &&& final(self).spec_staged() == Seq::<FrameData>::empty()
            },
    {
        if !self.active_batch.is_dirty() {
            proof {
                lemma_concat_count_bound(self.active_frames@);
            }
            return None;
        }
        if self.flushing {
            return None;
        }
        if self.wal.current_offset() > u64::MAX - (BATCH_CAPACITY as u64) {
            return None;
        }
        proof {
            if self.active_frames@.len() == 0 {
                assert(self.active_batch.content() =~= Seq::<u8>::empty());
            }
        }
        let ghost staged = self.active_frames@;
        let ghost content = self.active_batch.content();
        proof {
            self.active_batch.lemma_content_bound();
            crate::batch::lemma_round_up_cap(content.len() as int);
        }
        let bytes = self.active_batch.prepare_flush();
        let tags = self.active_batch.take_tags();
        proof {
            let pad = bytes@.skip(content.len() as int);
            assert(forall|j: int| 0 <= j < pad.len() ==> #[trigger] pad[j] == 0u8);
            lemma_parse_zeros(pad);
            assert(bytes@ =~= concat_frame_bytes(staged) + pad);
            lemma_parse_concat_prefix(staged, pad);
            assert(staged + parse_frames(pad) =~= staged);
            assert(parse_frames(bytes@) == staged);
        }
        let out = vstd::slice::slice_to_vec(bytes.as_slice());
        let off = self.wal.write_entry(bytes.len() as u32);
        self.flushing = true;
        self.flushing_data = bytes;
        self.flushing_frames = Ghost(staged);
        self.flushing_tags = tags;
        self.active_frames = Ghost(Seq::<FrameData>::empty());
        proof {
            assert(self.active_batch.content() =~= concat_frame_bytes(self.active_frames@));
        }
        Some(FlushRequest { offset: off, bytes: out, reason })
    }

    /// The batched log write completed: the flushed frames are now
    /// durable. They join the committed history, every originating
    /// connection gets one acknowledgment per persisted request —
    /// aggregated into one write per connection that is free for one —
    /// every slot paused on batch backpressure is woken, and the
    /// persisted entries are handed back to be applied to the index.
    /// This is the only producer of mutation acknowledgments, and it
    /// acknowledges exactly the frames of the completed write.
    #[verifier::rlimit(100)]
    pub fn on_batch_complete(&mut self) -> (r: BatchReport)
        requires
            old(self).wf(),
            old(self).spec_flushing(),
        ensures
            final(self).wf(),
            final(self).spec_slot_count() == old(self).spec_slot_count(),
            !final(self).spec_flushing(),
            final(self).spec_offset() == old(self).spec_offset(),
            final(self).spec_committed() == old(self).spec_committed() + old(self).spec_inflight(),
            final(self).spec_ledger() == old(self).spec_ledger(),
            r.entries@.map_values(|e: WalEntry| e@) == old(self).spec_inflight(),
            forall|i: int|
                0 <= i < old(self).spec_slot_count() ==> #[trigger] ack_outcome(
                    old(self),
                    final(self),
                    i,
                ),
            forall|i: int|
                0 <= i < old(self).spec_slot_count() ==> {
                    &&& final(self).slot_pending(i) == old(self).slot_pending(i)
                    &&& final(self).slot_open(i) == old(self).slot_open(i)
                    &&& final(self).slot_pending_ops(i) == old(self).slot_pending_ops(i)
                    &&& final(self).slot_read_in_flight(i) == old(self).slot_read_in_flight(i)
                    &&& !final(self).slot_paused(i)
                },
            forall|k: int|
                0 <= k < r.writes@.len() ==> {
                    let t = #[trigger] r.writes@[k].slot as int;
                    &&& 0 <= t < old(self).spec_slot_count()
                    &&& old(self).slot_open(t)
                    &&& tag_count(old(self).spec_inflight_tags(), t) > 0
                    &&& !old(self).slot_write_in_flight(t)
                    &&& r.writes@[k].bytes@ == old(self).slot_egress(t) + ok_upsert_acks(
                        tag_count(old(self).spec_inflight_tags(), t),
                    )
                },
            forall|i: int|
                0 <= i < old(self).spec_slot_count() && old(self).slot_open(i) && tag_count(
                    old(self).spec_inflight_tags(),
                    i,
                ) > 0 && !old(self).slot_write_in_flight(i) ==> (exists|k: int|
                    0 <= k < r.writes@.len() && (#[trigger] r.writes@[k].slot) as int == i),
            forall|k: int|
                0 <= k < r.resume@.len() ==> 0 <= #[trigger] r.resume@[k] < old(
                    self,
                ).spec_slot_count(),
            forall|i: int|
                0 <= i < old(self).spec_slot_count() ==> ((#[trigger] old(self).slot_paused(i))
                    <==> (exists|k: int|
                    0 <= k < r.resume@.len() && (#[trigger] r.resume@[k]) as int == i)),
    {
        let mut frames: Vec<Frame> = parse_concat(self.flushing_data.as_slice());
        let mut entries: Vec<WalEntry> = Vec::new();
        let ghost inflight = self.flushing_frames@;
        proof {
            assert(frames@.map_values(|f: Frame| f@) == inflight);
            assert(entries@.map_values(|e: WalEntry| e@) =~= inflight.subrange(0, 0));
        }
        let total = frames.len();
        let mut taken: usize = 0;
        while taken < total
            invariant
                taken <= total,
                total == taken + frames@.len(),
                frames@.map_values(|f: Frame| f@) =~= inflight.skip(taken as int),
                entries@.map_values(|e: WalEntry| e@) =~= inflight.subrange(0, taken as int),
                total == inflight.len(),
            decreases total - taken,
        {
            let ghost fv0 = frames@;
            let ghost ev0 = entries@;
            let f = frames.remove(0);
            let e = WalEntry { header: f.header, payload: f.payload };
            proof {
                assert(fv0.map_values(|f2: Frame| f2@)[0] == inflight.skip(taken as int)[0]);
                assert(f@ == inflight[taken as int]);
                assert(e@ == f@);
                assert(frames@ =~= fv0.skip(1));
                assert(frames@.map_values(|f2: Frame| f2@) =~= fv0.map_values(
                    |f2: Frame| f2@,
                ).skip(1));
                assert(fv0.map_values(|f2: Frame| f2@).skip(1) =~= inflight.skip(taken + 1));
            }
            entries.push(e);
            proof {
                assert(entries@ == ev0.push(e));
                assert(entries@.map_values(|x: WalEntry| x@) =~= ev0.map_values(
                    |x: WalEntry| x@,
                ).push(e@));
                assert(ev0.map_values(|x: WalEntry| x@).push(e@) =~= inflight.subrange(
                    0,
                    taken + 1,
                ));
            }
            taken += 1;
        }
        proof {
            assert(entries@.map_values(|e: WalEntry| e@) =~= inflight);
        }
        // Count the acknowledgments owed to each connection.
        let nslots = self.slots.len();
        let mut counts: Vec<usize> = vec![0usize; nslots];
        let ntags = self.flushing_tags.len();
        let ghost tags = self.flushing_tags@;
        proof {
            assert forall|j: int| 0 <= j < nslots implies #[trigger] counts@[j] == tag_count(
                tags.take(0),
                j,
            ) by {
                assert(tags.take(0) =~= Seq::<u64>::empty());
            }
        }
        let mut t: usize = 0;
        while t < ntags
            invariant
                t <= ntags,
                ntags == self.flushing_tags@.len(),
                tags == self.flushing_tags@,
                counts@.len() == nslots,
                nslots == self.slots@.len(),
                self.wf(),
                self.flushing,
                forall|j: int|
                    0 <= j < nslots ==> #[trigger] counts@[j] == tag_count(tags.take(t as int), j),
                forall|j: int| 0 <= j < counts@.len() ==> #[trigger] counts@[j] <= t,
            decreases ntags - t,
        {
            let tag = self.flushing_tags[t] as usize;
            let c = counts[tag];
            counts.set(tag, c + 1);
            proof {
                assert(tags.take(t + 1) =~= tags.take(t as int).push(tags[t as int]));
                assert forall|j: int| 0 <= j < nslots implies #[trigger] counts@[j] == tag_count(
                    tags.take(t + 1),
                    j,
                ) by {
                    lemma_tag_count_snoc(tags.take(t as int), tags[t as int], j);
                }
            }
            t += 1;
        }
        proof {
            assert(tags.take(ntags as int) =~= tags);
            assert(forall|j: int|
                0 <= j < nslots ==> #[trigger] counts@[j] == tag_count(tags, j));
        }
        // Queue the acknowledgments and build one aggregated write per
        // connection that is ready for one.
        let mut writes: Vec<WriteRequest> = Vec::new();
        let mut i: usize = 0;
        while i < nslots
            invariant
                i <= nslots,
                nslots == self.slots@.len(),
                counts@.len() == nslots,
                self.wf(),
                self.slots@.len() == old(self).slots@.len(),
                self.committed@ == old(self).committed@,
                self.flushing == old(self).flushing,
                self.flushing,
                self.flushing_data@ == old(self).flushing_data@,
                self.flushing_frames@ == old(self).flushing_frames@,
                self.flushing_tags@ == old(self).flushing_tags@,
                tags == old(self).flushing_tags@,
                self.wal == old(self).wal,
                self.boot_offset == old(self).boot_offset,
                self.durable_len@ == old(self).durable_len@,
                self.active_frames@ == old(self).active_frames@,
                self.active_batch == old(self).active_batch,
                self.is_shutting_down == old(self).is_shutting_down,
                forall|j: int|
                    0 <= j < nslots ==> #[trigger] counts@[j] == tag_count(tags, j),
                forall|j: int|
                    i <= j < nslots ==> #[trigger] self.slots@[j] == old(self).slots@[j],
                forall|j: int|
                    0 <= j < i ==> #[trigger] ack_outcome(old(self), self, j),
                forall|j: int|
                    0 <= j < i ==> {
                        &&& (#[trigger] self.slots@[j]).frames == old(self).slots@[j].frames
                        &&& self.slots@[j].open == old(self).slots@[j].open
                        &&& self.slots@[j].pending_ops == old(self).slots@[j].pending_ops
                        &&& self.slots@[j].read_in_flight == old(self).slots@[j].read_in_flight
                        &&& self.slots@[j].paused == old(self).slots@[j].paused
                    },
                forall|k: int|
                    0 <= k < writes@.len() ==> {
                        let w = #[trigger] writes@[k];
                        &&& 0 <= w.slot < i
                        &&& old(self).slot_open(w.slot as int)
                        &&& tag_count(tags, w.slot as int) > 0
                        &&& !old(self).slot_write_in_flight(w.slot as int)
                        &&& w.bytes@ == old(self).slot_egress(w.slot as int) + ok_upsert_acks(
                            tag_count(tags, w.slot as int),
                        )
                    },
                forall|j: int|
                    0 <= j < i && old(self).slot_open(j) && tag_count(tags, j) > 0 && !old(
                        self,
                    ).slot_write_in_flight(j) ==> (exists|k: int|
                        0 <= k < writes@.len() && (#[trigger] writes@[k].slot) as int == j),
            decreases nslots - i,
        {
            let ghost pre_iter = *self;
            let ghost writes0 = writes@;
            let count = counts[i];
            if count > 0 && self.slots[i].open {
                let ghost pre_e = self.slots@[i as int].egress@;
                let ghost pre_acks = self.slots@[i as int].pending_acks;
                let mut k: usize = 0;
                while k < count
                    invariant
                        k <= count,
                        0 <= i < self.slots@.len(),
                        self.wf(),
                        (*self == ShardCore {
                            slots: self.slots,
                            ..pre_iter
                        }),
                        self.slots@.len() == pre_iter.slots@.len(),
                        forall|j: int|
                            0 <= j < self.slots@.len() && j != i as int
                                ==> #[trigger] self.slots@[j] == pre_iter.slots@[j],
                        (self.slots@[i as int] == ConnSlot {
                            pending_acks: self.slots@[i as int].pending_acks,
                            egress: self.slots@[i as int].egress,
                            ..pre_iter.slots@[i as int]
                        }),
                        self.slots@[i as int].pending_acks == pre_acks + k,
                        self.slots@[i as int].egress@ == pre_e + ok_upsert_acks(k as int),
                        pre_e == pre_iter.slots@[i as int].egress@,
                        pre_acks == pre_iter.slots@[i as int].pending_acks,
                    decreases count - k,
                {
                    self.queue_response(i, STATUS_OK, OP_UPSERT, 0);
                    proof {
                        assert(ok_upsert_acks(k + 1) =~= ok_upsert_acks(k as int)
                            + ok_upsert_ack());
                        assert(self.slots@[i as int].egress@ =~= pre_e + ok_upsert_acks(k + 1));
                        lemma_ok_upsert_acks_len(k + 1);
                        assert((self.slots@[i as int]).wf());
                        assert((pre_iter.slots@[i as int]).wf());
                        assert(self.slots@[i as int].pending_acks * 16 == pre_e.len() + 16 * (k
                            + 1));
                        assert(pre_acks * 16 == pre_e.len());
                        assert(self.slots@[i as int].pending_acks == pre_acks + k + 1);
                        assert(self.slots@[i as int] == ConnSlot {
                            pending_acks: self.slots@[i as int].pending_acks,
                            egress: self.slots@[i as int].egress,
                            ..pre_iter.slots@[i as int]
                        });
                    }
                    k += 1;
                }
                if !self.slots[i].write_in_flight {
                    proof {
                        lemma_ok_upsert_acks_len(count as int);
                        assert(self.slots@[i as int].egress@.len() > 0);
                    }
                    let ghost mid = *self;
                    let w = self.submit_write(i);
                    proof {
                        assert forall|j: int|
                            0 <= j < self.slots@.len() && j != i as int implies self.slots@[j]
                            == pre_iter.slots@[j] by {
                            assert(self.slots@[j] == mid.slots@[j]);
                        }
                    }
                    proof {
                        assert(w.bytes@ == pre_e + ok_upsert_acks(count as int));
                        assert(pre_e == old(self).slot_egress(i as int));
                        assert(count == tag_count(tags, i as int));
                    }
                    writes.push(w);
                    proof {
                        assert(writes@[writes@.len() - 1].slot == i);
                        assert(writes@[writes@.len() - 1].bytes@ == old(self).slot_egress(
                            i as int,
                        ) + ok_upsert_acks(tag_count(tags, i as int)));
                    }
                }
                proof {
                    assert(pre_iter.slots@[i as int] == old(self).slots@[i as int]);
                    assert(ack_outcome(old(self), self, i as int)) by {
                        if !old(self).slot_write_in_flight(i as int) {
                            lemma_ok_upsert_acks_len(count as int);
                        }
                    }
                }
            } else {
                proof {
                    assert(self.slots@[i as int] == old(self).slots@[i as int]);
                    assert(ack_outcome(old(self), self, i as int));
                }
            }
            proof {
                assert forall|j: int| 0 <= j < i implies #[trigger] ack_outcome(
                    old(self),
                    self,
                    j,
                ) by {
                    assert(self.slots@[j] == pre_iter.slots@[j]);
                    assert(ack_outcome(old(self), &pre_iter, j));
                }
                assert forall|j: int|
                    0 <= j < i + 1 && old(self).slot_open(j) && tag_count(tags, j) > 0 && !old(
                    self,
                ).slot_write_in_flight(j) implies (exists|k: int|
                    0 <= k < writes@.len() && (#[trigger] writes@[k].slot) as int == j) by {
                    if j == i as int {
                        assert(counts@[i as int] == tag_count(tags, i as int));
                        assert((writes@[writes@.len() - 1].slot) as int == j);
                    } else {
                        let kk = choose|k: int|
                            0 <= k < writes0.len() && (#[trigger] writes0[k].slot) as int == j;
                        assert(writes@[kk] == writes0[kk]);
                        assert((writes@[kk].slot) as int == j);
                    }
                }
            }
            i += 1;
        }
        // Wake every slot that paused on batch backpressure.
        let ghost after_acks = *self;
        let mut resume: Vec<usize> = Vec::new();
        let mut p: usize = 0;
        while p < nslots
            invariant
                p <= nslots,
                nslots == self.slots@.len(),
                (*self == ShardCore {
                    slots: self.slots,
                    ..after_acks
                }),
                self.slots@.len() == after_acks.slots@.len(),
                forall|j: int|
                    p <= j < nslots ==> #[trigger] self.slots@[j] == after_acks.slots@[j],
                forall|j: int|
                    0 <= j < p ==> (#[trigger] self.slots@[j] == ConnSlot {
                        paused: false,
                        ..after_acks.slots@[j]
                    }),
                forall|k: int|
                    0 <= k < resume@.len() ==> 0 <= #[trigger] resume@[k] < nslots,
                forall|k: int|
                    0 <= k < resume@.len() ==> after_acks.slots@[(#[trigger] resume@[k]) as int].paused,
                forall|j: int|
                    0 <= j < p && after_acks.slots@[j].paused ==> (exists|k: int|
                        0 <= k < resume@.len() && (#[trigger] resume@[k]) as int == j),
                self.wf(),
            decreases nslots - p,
        {
            let ghost resume0 = resume@;
            let was = self.slots[p].paused;
            if was {
                self.slots[p].paused = false;
                resume.push(p);
            }
            proof {
                assert(self.slots@[p as int] == ConnSlot {
                    paused: false,
                    ..after_acks.slots@[p as int]
                });
                if was {
                    assert(resume@[resume@.len() - 1] == p);
                }
                assert forall|j: int|
                    0 <= j < p + 1 && after_acks.slots@[j].paused implies (exists|k: int|
                    0 <= k < resume@.len() && (#[trigger] resume@[k]) as int == j) by {
                    if j == p as int {
                        assert(was == after_acks.slots@[p as int].paused);
                        assert(was);
                        assert((resume@[resume@.len() - 1]) as int == j);
                    } else {
                        let kk = choose|k: int|
                            0 <= k < resume0.len() && (#[trigger] resume0[k]) as int == j;
                        assert(resume@[kk] == resume0[kk]);
                        assert((resume@[kk]) as int == j);
                    }
                }
            }
            p += 1;
        }
        proof {
            assert(forall|j: int|
                0 <= j < self.slots@.len() ==> !(#[trigger] self.slots@[j]).paused);
        }
        // The write is durable: commit its frames and clear the pipeline.
        let flen = self.flushing_data.len();
        self.committed = Ghost(self.committed@ + self.flushing_frames@);
        self.durable_len = Ghost(self.durable_len@ + flen as int);
        self.flushing = false;
        self.flushing_data = Vec::new();
        self.flushing_frames = Ghost(Seq::<FrameData>::empty());
        self.flushing_tags.clear();
        proof {
            assert(self.durable_len@ % (PAGE_SIZE as int) == 0) by {
                vstd::arithmetic::div_mod::lemma_mod_adds(
                    old(self).durable_len@,
                    flen as int,
                    PAGE_SIZE as int,
                );
            }
            assert(self.spec_ledger() =~= old(self).spec_ledger());
            assert forall|j: int| 0 <= j < old(self).spec_slot_count() implies
                #[trigger] ack_outcome(old(self), self, j) by {
                assert(ack_outcome(old(self), &after_acks, j));
                assert(self.slots@[j].egress@ == after_acks.slots@[j].egress@);
                assert(self.slots@[j].write_in_flight == after_acks.slots@[j].write_in_flight);
            }
        }
        let ghost resume_final = resume@;
        let r = BatchReport { entries, writes, resume };
        proof {
            assert(r.resume@ == resume_final);
            assert forall|j: int| 0 <= j < old(self).spec_slot_count() implies ((
            #[trigger] old(self).slot_paused(j)) <==> (exists|k: int|
                0 <= k < r.resume@.len() && (#[trigger] r.resume@[k]) as int == j)) by {
                assert(after_acks.slots@[j].paused == old(self).slots@[j].paused);
                if old(self).slot_paused(j) {
                    let kk = choose|k: int|
                        0 <= k < resume_final.len() && (#[trigger] resume_final[k]) as int == j;
                    assert((r.resume@[kk]) as int == j);
                }
                if exists|k: int| 0 <= k < r.resume@.len() && (#[trigger] r.resume@[k]) as int
                    == j {
                    let kk = choose|k: int|
                        0 <= k < r.resume@.len() && (#[trigger] r.resume@[k]) as int == j;
                    assert(resume_final[kk] == r.resume@[kk]);
                    assert(after_acks.slots@[(resume_final[kk]) as int].paused);
                }
            }
        }
        r
    }

    /// A response write finished on `idx`: clear the in-flight flag,
    /// retire as many outstanding requests as acknowledgments went out
    /// (`bytes_written / 16`, saturating at zero), and hand back the next
    /// aggregated write exactly when the slot is open and responses
    /// queued up meanwhile. Run ingress on the slot afterwards to drain
    /// pipelined requests.
    pub fn on_write_complete(&mut self, idx: usize, bytes_written: usize) -> (r: Option<
        WriteRequest,
    >)
        requires
            old(self).wf(),
            0 <= idx < old(self).spec_slot_count(),
            old(self).slot_write_in_flight(idx as int),
        ensures
            final(self).wf(),
            final(self).spec_slot_count() == old(self).spec_slot_count(),
            final(self).spec_committed() == old(self).spec_committed(),
            final(self).spec_ledger() == old(self).spec_ledger(),
            final(self).spec_offset() == old(self).spec_offset(),
            forall|j: int|
                0 <= j < old(self).spec_slot_count() && j != idx as int ==> final(self).slot_unchanged(old(self), j),
            final(self).slot_pending(idx as int) == old(self).slot_pending(idx as int),
            final(self).slot_open(idx as int) == old(self).slot_open(idx as int),
            final(self).slot_paused(idx as int) == old(self).slot_paused(idx as int),
            final(self).slot_read_in_flight(idx as int) == old(self).slot_read_in_flight(
                idx as int,
            ),
            final(self).slot_pending_ops(idx as int) == if bytes_written / 16 >= old(self).slot_pending_ops(idx as int) {
                0int
            } else {
                old(self).slot_pending_ops(idx as int) - bytes_written / 16
            },
            r is Some <==> old(self).slot_open(idx as int) && old(self).slot_egress(
                idx as int,
            ).len() > 0,
            r is Some ==> {
                let w = r.unwrap();
                &&& w.slot == idx
                &&& w.bytes@ == old(self).slot_egress(idx as int)
                &&& final(self).slot_egress(idx as int).len() == 0
                &&& final(self).slot_write_in_flight(idx as int)
            },
            r is None ==> final(self).slot_egress(idx as int) == old(self).slot_egress(
                idx as int,
            ) && !final(self).slot_write_in_flight(idx as int),
    {
        self.slots[idx].write_in_flight = false;
        let acks = bytes_written / 16;
        let p = self.slots[idx].pending_ops;
        if acks > p {
            self.slots[idx].pending_ops = 0;
        } else {
            self.slots[idx].pending_ops = p - acks;
        }
        if self.slots[idx].open && self.slots[idx].egress.len() > 0 {
            Some(self.submit_write(idx))
        } else {
            None
        }
    }

    /// End-of-tick check: flush when the batch is dirty and the pipeline
    /// is free.
    pub fn should_flush_eot(&self) -> (r: bool)
        requires
            self.wf(),
        ensures
            r <==> self.spec_staged().len() > 0 && !self.spec_flushing(),
    {
        proof {
            lemma_concat_count_bound(self.active_frames@);
            if self.active_frames@.len() == 0 {
                assert(self.active_batch.content() =~= concat_frame_bytes(self.active_frames@));
            }
        }
        self.active_batch.is_dirty() && !self.flushing
    }

    /// Marks the shard stopping and flushes any staged data exactly as
    /// an end-of-tick flush would; the caller submits the returned write
    /// and exits after its completion. Shutdown provably never drops a
    /// dirty batch: the request is produced precisely when staged data
    /// exists, no flush is in flight, and the log has headroom.
    pub fn shutdown(&mut self) -> (r: Option<FlushRequest>)
        requires
            old(self).wf(),
        ensures
            final(self).wf(),
            final(self).spec_stopping(),
            final(self).spec_slot_count() == old(self).spec_slot_count(),
            final(self).spec_committed() == old(self).spec_committed(),
            final(self).slots_unchanged(old(self)),
            r is Some <==> old(self).spec_staged().len() > 0 && !old(self).spec_flushing() && old(self).spec_offset() + BATCH_CAPACITY <= u64::MAX,
            r is None ==> final(self).spec_staged() == old(self).spec_staged() && final(self).spec_flushing() == old(self).spec_flushing() && final(self).spec_inflight() == old(self).spec_inflight() && final(self).spec_offset() == old(self).spec_offset(),
            r is Some ==> {
                let req = r.unwrap();
                &&& req.offset == old(self).spec_offset()
                &&& req.bytes@.len() as int % (PAGE_SIZE as int) == 0
                &&& 0 < req.bytes@.len() <= BATCH_CAPACITY
                &&& parse_frames(req.bytes@) == old(self).spec_staged()
                &&& req.reason == FlushReason::Eot
                &&& final(self).spec_offset() == old(self).spec_offset() + req.bytes@.len()
                &&& final(self).spec_flushing()
                &&& final(self).spec_inflight() == old(self).spec_staged()
                &&& final(self).spec_staged() == Seq::<FrameData>::empty()
            },
    {
        self.is_shutting_down = true;
        self.flush_active_batch(FlushReason::Eot)
    }

    /// Whether shutdown has been requested.
    pub fn is_stopping(&self) -> (r: bool)
        ensures
            r == self.spec_stopping(),
    {
        self.is_shutting_down
    }
}

} // verus!
