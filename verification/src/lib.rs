//! Page-cache binding layer of a disk-backed B-tree storage engine.
//!
//! A caller-owned [`node::NodeHandle`] names a logical B-tree node by disk
//! address and page type.  [`node::bind`] resolves that address against a
//! [`cache::Cache`] — a bounded pool of fixed-size pages keyed by disk
//! address — pinning the resident page and producing a [`node::BoundNode`]
//! whose header view reads and writes the page's leading bytes in place.
//! [`node::unbind`] drops the pin.  [`mem_cache::MemCache`] is a minimal
//! in-memory pool satisfying the cache contract end to end.

pub mod cache;
pub mod errors;
pub mod node;
pub mod mem_cache;
pub mod page;
