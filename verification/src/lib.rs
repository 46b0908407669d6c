//! VORTEX engine core: a shard-per-core vector store that frames a binary
//! protocol off a byte stream, persists mutations to a write-ahead log in
//! sector-aligned batches before acknowledging them, and serves approximate
//! nearest-neighbour search over a hierarchical proximity graph kept in a
//! flat quantized arena.
//!
//! The crate holds the engine's decision logic: protocol framing and
//! reassembly, batch accumulation and group commit, the write-ahead log
//! format and its crash-recovery scan, the graph index, and the per-shard
//! reactor state machine. The surrounding I/O (sockets, the submission
//! ring, the log file itself) lives outside and drives these types with
//! plain values.

pub mod batch;
pub mod framing;
pub mod hnsw;
pub mod memory;
pub mod metrics;
pub mod protocol;
pub mod proxy;
pub mod quantization;
pub mod reactor;
pub mod simd;
pub mod telemetry_beacon;
pub mod topology;
pub mod wal;

use vstd::prelude::*;

verus! {

} // verus!
