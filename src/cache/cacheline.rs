//! Counters for the false-sharing workloads: each worker adds one to a counter
//! many times, either to a counter that all workers share, to one of several
//! counters packed side by side, or to one padded out to a cache line of its
//! own.
//!
//! The values of the atomics are not modelled; what is stated is how many
//! increments each worker issues.
use std::sync::atomic::{AtomicUsize, Ordering};
use vstd::prelude::*;

verus! {

/// Increments that one worker performs.
pub const INCREMENTS_PER_WORKER: usize = 10000;

/// Workers that each false-sharing workload starts.
pub const WORKERS: usize = 4;

/// A counter followed by padding up to 64 bytes, a cache line on the machines
/// these workloads aim at, so that no other hot value lies within a cache line
/// of it.
pub struct AlignAtomicUsize {
    v: AtomicUsize,
    pad: [u8; 56],
}

impl AlignAtomicUsize {
    /// A padded counter that starts at `val`.
    pub fn new(val: usize) -> Self {
        Self { v: AtomicUsize::new(val), pad: [0u8; 56] }
    }

    /// The counter inside the padding.
    pub fn counter(&self) -> &AtomicUsize {
        &self.v
    }
}

/// Adds one to `v` `INCREMENTS_PER_WORKER` times with relaxed ordering, and
/// returns how many increments it issued.
pub fn increase(v: &AtomicUsize) -> (issued: usize)
    ensures
        issued == INCREMENTS_PER_WORKER,
{
    let mut k: usize = 0;
    while k < INCREMENTS_PER_WORKER
        invariant
            0 <= k <= INCREMENTS_PER_WORKER,
        decreases INCREMENTS_PER_WORKER - k,
    {
        v.fetch_add(1, Ordering::Relaxed);
        k = k + 1;
    }
    k
}

/// Adds one to the counter of `v` `INCREMENTS_PER_WORKER` times with relaxed
/// ordering, and returns how many increments it issued.
pub fn increase_2(v: &AlignAtomicUsize) -> (issued: usize)
    ensures
        issued == INCREMENTS_PER_WORKER,
{
    increase(&v.v)
}

} // verus!
