//! Saves and restores sessions and the states of agents.

pub mod file_storage;
pub mod session;
pub mod state;
pub mod storage;
