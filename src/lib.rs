//! Workload generators that shape memory-access patterns so that a timing
//! harness can observe cache associativity, locality, prefetching, false
//! sharing, data dependencies and unaligned accesses.
pub mod data_dependency;
pub mod cache;
pub mod unaligned_memory_access;
