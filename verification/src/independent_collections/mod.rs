//! Collections that need nothing of the allocator they serve.

pub mod range_mapping;
