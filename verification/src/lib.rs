//! A bounded least-recently-used cache from keys to shared, immutable values.
//!
//! [`LruStore`] is the map itself, with every decision under contract: it is used by one
//! owner at a time and is told the time by its caller. [`LruCache`] puts one store behind a
//! lock and a clock, for use from many threads through a shared reference. The module
//! [`laws`] states what the two operations guarantee together.

pub mod cache;
pub mod clock;
pub mod laws;
pub mod store;

pub use cache::LruCache;
pub use store::{LruStore, Slot};
