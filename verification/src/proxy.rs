//! Shard orchestration state: how many shards run, how large each one is,
//! where they persist, and whether the cluster is still running. Spawning
//! the per-core threads and pinning them is the runtime's job; this state
//! machine owns the configuration and the stop signal.

use vstd::prelude::*;

verus! {

/// Orchestrates the shard reactors of one process.
pub struct ShardProxy {
    num_shards: usize,
    max_elements_per_shard: usize,
    storage_dir: String,
    running: bool,
}

impl ShardProxy {
    pub closed spec fn spec_num_shards(&self) -> int {
        self.num_shards as int
    }

    pub closed spec fn spec_max_elements_per_shard(&self) -> int {
        self.max_elements_per_shard as int
    }

    pub closed spec fn spec_storage_dir(&self) -> Seq<char> {
        self.storage_dir@
    }

    /// Whether shards should keep running.
    pub closed spec fn spec_running(&self) -> bool {
        self.running
    }

    /// A proxy for `num_shards` shards of the given capacity, persisting
    /// under `storage_dir`; the cluster starts in the running state.
    pub fn new(num_shards: usize, max_elements_per_shard: usize, storage_dir: String) -> (r: Self)
        ensures
            r.spec_num_shards() == num_shards,
            r.spec_max_elements_per_shard() == max_elements_per_shard,
            r.spec_storage_dir() == storage_dir@,
            r.spec_running(),
    {
        ShardProxy { num_shards, max_elements_per_shard, storage_dir, running: true }
    }

    /// Number of shards to spawn.
    pub fn num_shards(&self) -> (r: usize)
        ensures
            r == self.spec_num_shards(),
    {
        self.num_shards
    }

    /// Capacity of each shard's index.
    pub fn max_elements_per_shard(&self) -> (r: usize)
        ensures
            r == self.spec_max_elements_per_shard(),
    {
        self.max_elements_per_shard
    }

    /// The directory each shard's log file lives under.
    pub fn storage_dir(&self) -> (r: &String)
        ensures
            r@ == self.spec_storage_dir(),
    {
        &self.storage_dir
    }

    /// Whether shards should keep ticking.
    pub fn is_running(&self) -> (r: bool)
        ensures
            r == self.spec_running(),
    {
        self.running
    }

    /// Signals a graceful shutdown: every shard drains and exits after
    /// its next tick.
    pub fn shutdown(&mut self)
        ensures
            !final(self).spec_running(),
            final(self).spec_num_shards() == old(self).spec_num_shards(),
            final(self).spec_max_elements_per_shard() == old(
                self,
            ).spec_max_elements_per_shard(),
            final(self).spec_storage_dir() == old(self).spec_storage_dir(),
    {
        self.running = false;
    }
}

} // verus!
