//! Core of an agent runtime.

pub mod memory;
pub mod message;
pub mod node;
pub mod outside;
pub mod path;
pub mod performance;
pub mod persistence;
pub mod text;
