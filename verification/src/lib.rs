//! A small, fixed-capacity key/value cache with first-in, first-out
//! replacement.
//!
//! [`MemoCache`] holds a fixed number of slots in an array. A lookup scans
//! the slots in index order. An insertion of a key that the cache already
//! holds replaces the value in place; an insertion of any other key takes
//! the slot under a cursor that walks the array round and round, so that a
//! full cache gives up the key that was inserted longest ago.
//!
//! The contracts are stated over [`CacheModel`], a sequence of optional
//! entries with a cursor; the `laws` module proves what follows from them
//! across calls.

pub mod cache;
pub mod keys;
pub mod laws;
pub mod model;
pub mod slot;

pub use crate::cache::MemoCache;
pub use crate::keys::{Equivalent, Key};
pub use crate::model::CacheModel;
pub use crate::slot::KeyValueSlot;
