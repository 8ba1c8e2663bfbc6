//! Messages between nodes: topics, frames, sequence numbers, acknowledgements,
//! parameters and services.

pub mod ack;
pub mod frame;
pub mod param;
pub mod payloads;
pub mod sequence;
pub mod service;
pub mod topic;
