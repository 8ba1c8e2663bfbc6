//! Text as sequences of characters: what the operations mean, and the
//! operations themselves.

pub mod lemmas;
pub mod model;
pub mod number;
pub mod ops;
pub mod order;
pub mod text_map;
pub mod text_set;
