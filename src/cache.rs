//! Generators aimed at the cache hierarchy.
pub mod associativity;
pub mod basic;
pub mod cacheline;
pub mod matrix;
pub mod prefetcher;
