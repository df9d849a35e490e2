//! The concrete arenas.
pub mod pool;
pub mod slab;
