//! Hardware topology probe: core count and available memory, used to pick
//! the shard layout at startup.

use vstd::prelude::*;

verus! {

/// Relies on `sysinfo::System::cpus` (after a full refresh) for the
/// number of usable processors. The result depends on the machine, so
/// nothing is assumed of it.
#[verifier::external_body]
fn probe_cpu_count() -> usize {
    sysinfo::System::new_all().cpus().len()
}

/// Relies on `sysinfo::System::available_memory` (after a full refresh)
/// for the bytes of memory currently available. The result depends on the
/// machine and the moment, so nothing is assumed of it.
#[verifier::external_body]
fn probe_available_memory() -> u64 {
    sysinfo::System::new_all().available_memory()
}

/// Detected hardware shape: the usable core identifiers and the available
/// physical memory.
pub struct SystemTopology {
    physical_cores: Vec<usize>,
    available_ram: u64,
}

impl SystemTopology {
    /// The detected core identifiers.
    pub closed spec fn spec_cores(&self) -> Seq<usize> {
        self.physical_cores@
    }

    /// The available memory in bytes.
    pub closed spec fn spec_available_ram(&self) -> u64 {
        self.available_ram
    }

    /// Probes the machine. Whatever the probe reports, the result names
    /// at least one core, numbered contiguously from zero.
    pub fn new() -> (r: Self)
        ensures
            r.spec_cores().len() >= 1,
            forall|k: int| 0 <= k < r.spec_cores().len() ==> #[trigger] r.spec_cores()[k] == k,
    {
        let count = probe_cpu_count();
        let available_ram = probe_available_memory();

        let num_cores: usize = if count == 0 {
            // The probe failed: fall back to a single core.
            1
        } else if count > 65536 {
            65536
        } else {
            count
        };

        let mut physical_cores: Vec<usize> = Vec::new();
        let mut i: usize = 0;
        while i < num_cores
            invariant
                i <= num_cores,
                physical_cores@.len() == i,
                forall|k: int| 0 <= k < i ==> #[trigger] physical_cores@[k] == k,
            decreases num_cores - i,
        {
            physical_cores.push(i);
            i += 1;
        }
        SystemTopology { physical_cores, available_ram }
    }

    /// The identifiers of the usable cores.
    pub fn physical_cores(&self) -> (r: &[usize])
        ensures
            r@ == self.spec_cores(),
    {
        self.physical_cores.as_slice()
    }

    /// The available memory in bytes.
    pub fn available_ram(&self) -> (r: u64)
        ensures
            r == self.spec_available_ram(),
    {
        self.available_ram
    }

    /// A constrained environment: fewer than 8 cores or less than 16 GB
    /// available; the engine then scales its capacity down.
    pub fn is_constrained(&self) -> (r: bool)
        ensures
            r <==> self.spec_cores().len() < 8 || self.spec_available_ram() < 16000000000u64,
    {
        self.physical_cores.len() < 8 || self.available_ram < 16000000000u64
    }
}

} // verus!
