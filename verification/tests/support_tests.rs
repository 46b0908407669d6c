use vortex::memory::{BufferPool, MemoryError};
use vortex::metrics::{s_sub, HealthStats, RawSnapshot, SearchStats};
use vortex::proxy::ShardProxy;
use vortex::telemetry_beacon::LiveHistogram;
use vortex::topology::SystemTopology;

#[test]
fn histogram_percentiles_exact() {
    let mut h = LiveHistogram::new();
    // Ten samples under 1us, ten between 100 and 200us.
    for _ in 0..10 {
        h.record(0);
    }
    for _ in 0..10 {
        h.record(150);
    }
    // The median falls in the first bucket: threshold 1us.
    assert_eq!(h.calculate_percentile(50, 100), 1);
    // The 99th percentile falls in the 100-200us bucket: threshold 200us.
    assert_eq!(h.calculate_percentile(99, 100), 200);
}

#[test]
fn histogram_empty_reports_zero() {
    let h = LiveHistogram::new();
    assert_eq!(h.calculate_percentile(50, 100), 0);
}

#[test]
fn histogram_top_bucket_catches_everything() {
    let mut h = LiveHistogram::new();
    h.record(u64::MAX);
    assert_eq!(h.calculate_percentile(100, 100), 500000);
}

#[test]
fn s_sub_plain_and_wrapped() {
    assert_eq!(s_sub(10, 3), 7);
    assert_eq!(s_sub(0, 0), 0);
    assert_eq!(s_sub(5, u64::MAX - 3), 8);
}

#[test]
fn metric_structs_default_to_zero() {
    let s = SearchStats::default();
    assert_eq!((s.ops, s.time_us, s.dist_calcs), (0, 0, 0));
    let h = HealthStats::default();
    assert_eq!((h.ingress_ms, h.flush_ms), (0, 0));
    let r = RawSnapshot::default();
    assert!(r.timestamp_ns.is_none());
    assert_eq!(r.disk_sectors_written, 0);
    assert!(r.cpu_total_ticks.is_empty());
}

#[test]
fn buffer_pool_lease_release_reset() {
    let mut pool = BufferPool::new(4, 4096);
    let mut leases = Vec::new();
    for _ in 0..4 {
        leases.push(pool.lease().expect("pages are free"));
    }
    assert!(pool.lease().is_none(), "an exhausted pool refuses a lease");
    assert_eq!(leases[0].index, 3, "leases come off the back of the free list");
    assert_eq!(leases[0].len, 4096);
    let l = leases.pop().unwrap();
    pool.release(l);
    assert!(pool.lease().is_some());
    pool.reset();
    for _ in 0..4 {
        assert!(pool.lease().is_some());
    }
    assert!(pool.lease().is_none());
}

#[test]
fn buffer_pool_page_writes() {
    let mut pool = BufferPool::new(1, 4096);
    pool.get_page_mut(0, 10, &[1, 2, 3]);
    let page = pool.get_page(0);
    let s = page.as_slice();
    assert_eq!(&s[10..13], &[1, 2, 3]);
    assert_eq!(s[0], 0);
}

#[test]
fn memory_error_variants_compare() {
    assert_ne!(MemoryError::AllocationFailed, MemoryError::LockFailed(1));
    assert_eq!(MemoryError::InvalidAlignment(5, 4096), MemoryError::InvalidAlignment(5, 4096));
}

#[test]
fn topology_names_contiguous_cores() {
    let t = SystemTopology::new();
    let cores = t.physical_cores();
    assert!(!cores.is_empty());
    for (k, &c) in cores.iter().enumerate() {
        assert_eq!(c, k);
    }
    let constrained = t.is_constrained();
    assert_eq!(constrained, cores.len() < 8 || t.available_ram() < 16_000_000_000);
}

#[test]
fn proxy_lifecycle() {
    let mut p = ShardProxy::new(4, 10000, String::from("./data"));
    assert!(p.is_running());
    assert_eq!(p.num_shards(), 4);
    assert_eq!(p.max_elements_per_shard(), 10000);
    assert_eq!(p.storage_dir(), "./data");
    p.shutdown();
    assert!(!p.is_running());
}
