//! Plain counter types for operational metrics, and the wrap-safe delta
//! arithmetic that rate computation builds on. Reading the kernel's
//! counters and turning deltas into rates happen outside the core.

use vstd::prelude::*;

verus! {

/// Per-second search statistics parsed from a shard's pulse.
#[derive(Clone, Copy, Debug, Default, PartialEq, Eq, Structural)]
pub struct SearchStats {
    pub ops: u64,
    pub time_us: u64,
    pub dist_calcs: u64,
}

/// Per-second health statistics parsed from a shard's pulse.
#[derive(Clone, Copy, Debug, Default, PartialEq, Eq, Structural)]
pub struct HealthStats {
    pub ingress_ms: u64,
    pub flush_ms: u64,
}

/// One raw sample of absolute hardware counters. Pure data: no rates, no
/// logic. The timestamp is monotonic nanoseconds, absent before the first
/// capture.
#[derive(Clone, Debug, Default)]
pub struct RawSnapshot {
    pub timestamp_ns: Option<u64>,
    pub cpu_total_ticks: Vec<u64>,
    pub cpu_work_ticks: Vec<u64>,
    pub cpu_user_ticks: Vec<u64>,
    pub cpu_system_ticks: Vec<u64>,
    pub cpu_softirq_ticks: Vec<u64>,
    pub disk_sectors_written: u64,
    pub net_rx_queue: u64,
    pub net_rx_bytes: u64,
    pub net_tx_bytes: u64,
    pub net_prune_called: u64,
    pub memory_rss_kb: u64,
    pub context_switches: u64,
}

/// Wrap-safe counter difference: an absolute counter that moved backwards
/// is taken to have wrapped around the 64-bit range.
pub fn s_sub(curr: u64, prev: u64) -> (r: u64)
    ensures
        curr >= prev ==> r == curr - prev,
        curr < prev ==> r == (u64::MAX - prev) + curr,
{
    if curr >= prev {
        curr - prev
    } else {
        (u64::MAX - prev) + curr
    }
}

} // verus!
