//! A fixed-capacity key/value cache that evicts the least recently used entry.
//!
//! The cache is described by a mathematical model, [`model::CacheState`]: the
//! keys from most to least recently used, the stored values, and the capacity.
//! Every operation of [`cache::LRUCache`] is specified as a step of that model,
//! and the laws that relate the steps to each other are proved in [`laws`].

pub mod cache;
pub mod laws;
pub mod model;
