pub mod effects;
pub mod eq;
pub mod graph;
pub mod props;
pub mod strip_eq;

pub use graph::{AudioGraph, AudioNode, Direction, NodeType, PwCommand, PwEvent};
