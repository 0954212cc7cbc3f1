//! An in-memory temporal graph store with a vertex-centric compute layer.
//!
//! Vertices and edges carry a history of timestamped events. The store is
//! partitioned into shards by vertex id; edges whose endpoints live in
//! different shards are represented by a pair of half-edges, one per shard.
//! Structural queries may be restricted to a time window. A small algebra of
//! accumulators (sum, min, max, avg, top-k) backs the compute layer, which
//! aggregates per-key partial values inside each shard and merges them across
//! shards between supersteps.

pub mod accumulator;
pub mod accumulators;
pub mod algorithms;
pub mod graph;
pub mod props;
pub mod runner;
pub mod shard;
pub mod state;
pub mod view;

use vstd::prelude::*;

verus! {

/// The shard that owns a global vertex id: its residue modulo the shard count.
pub open spec fn spec_shard_of(gid: u64, nr_shards: int) -> int {
    gid as int % nr_shards
}

/// Route a global vertex id to the shard that owns it.
pub fn shard_of(gid: u64, nr_shards: usize) -> (r: usize)
    requires
        nr_shards >= 1,
    ensures
        r == spec_shard_of(gid, nr_shards as int),
        r < nr_shards,
{
    (gid % (nr_shards as u64)) as usize
}

} // verus!
