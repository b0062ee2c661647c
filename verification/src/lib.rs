//! An allocator front end with a per-size-class tuner of thread-local cache
//! sizes.
//!
//! The tuner watches the allocations and frees of one size class, estimates
//! from them how many fresh blocks the next allocations will need, and asks
//! the central reserve for that many when a cache runs dry. Its aim is a
//! fixed allocation-free period: the number of allocations served from a
//! cache between two trips to the reserve.

pub mod mem_info;
pub mod ratio;
pub mod thread_cache;
pub mod abi;
pub mod apf;
pub mod independent_collections;
