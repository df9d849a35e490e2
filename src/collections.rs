//! Owning collections whose nodes are carved from an arena.
pub mod queue;
pub mod ordering;

pub mod map;
