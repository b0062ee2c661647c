//! The tuner of one size class and the counters it keeps.

pub mod constants;
pub mod histogram;
pub mod liveness_counter;
pub mod reuse;
pub mod reuse_counter;
pub mod steady;
pub mod trace;
pub mod tuner;

pub use constants::TARGET_APF;
pub use tuner::ApfTuner;
