//! A best-first search over any state that can be scored, fingerprinted and expanded.

pub mod engine;
pub mod frontier;
pub mod node;

pub use engine::SearchEngine;
pub use frontier::{Frontier, HeapFrontier};
pub use node::SearchNode;
