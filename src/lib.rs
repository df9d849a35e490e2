//! Arena-backed collections and a shared-memory reader/writer lock.
//!
//! The allocator capability is modelled as plain values (addresses and
//! sizes inside an arena); the collections are generic over it and their
//! contracts speak of the arena's count of outstanding blocks.
#![allow(non_camel_case_types)]

pub mod allocator;
pub mod arena;
pub mod collections;
pub mod sync;
pub mod detail;
pub mod string;
pub mod store;
