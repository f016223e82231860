//! A verified core for a terminal key-value store browser: a key-space
//! hierarchy engine (building a navigable tree from a flat, delimiter-
//! structured key list), a view projector that flattens the tree into
//! addressable rows, and the decision logic of the single-writer
//! synchronization pipeline between the view model and the store worker.

pub mod config;
pub mod editor;
pub mod flatten;
pub mod format;
pub mod kinds;
pub mod laws;
pub mod node_model;
pub mod pipeline;
pub mod segments;
pub mod store_model;
pub mod tree;
pub mod view_laws;
pub mod viewmodel;

pub use kinds::RedisType;
pub use kinds::RedisValue;
