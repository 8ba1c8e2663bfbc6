//! What makes the agent fast.

pub mod memory_pool;
