//! A concurrently editable document tree with provenance and durable
//! storage.
//!
//! A document is a tree of nodes under a single wrapped root; each node
//! keeps an append-only log of authored writes, comments, and
//! machine-generation records, and a list of child nodes, each behind its
//! own reader-writer lock so that disjoint subtrees can be edited
//! concurrently. A point-in-time snapshot of the tree serializes to JSON
//! and reloads from it.
//!
//! Canonical shape: one wrapped root node (no multi-root variant); author
//! and generator ids, timestamps, write payloads, generation configuration
//! and generation output are all carried as plain strings, stored verbatim
//! and never computed with.

pub mod codec;
pub mod content;
pub mod document;
pub mod laws;
pub mod storage;
pub mod wrapper;

use vstd::prelude::*;

verus! {

/// The largest nesting depth a snapshot of a live tree will follow.
pub const MAX_EXPORT_DEPTH: u64 = 4096;

} // verus!
