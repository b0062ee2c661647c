//! The settings that a tuner starts with.

use vstd::prelude::*;

verus! {

/// The allocation-free period that a tuner aims at: the number of
/// allocations that a cache serves between two trips to the reserve.
pub const TARGET_APF: usize = 2500;

/// The number of ticks that a sampling burst of the reuse counter lasts.
pub const REUSE_BURST_LENGTH: usize = 300;

/// The number of ticks that the reuse counter rests between two bursts.
pub const REUSE_HIBERNATION_PERIOD: usize = 600;

/// Whether time is counted in allocations only. Where it is not, every
/// allocation and every free is a timestep.
pub const USE_ALLOCATION_CLOCK: bool = true;

} // verus!
