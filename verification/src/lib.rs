//! Snapshot-based recovery engine for a persistent Merkle tree.
//!
//! The tree must reach a known root hash that matches an authoritative
//! relational snapshot (the "source store") before it can serve normal
//! updates. This library holds the verified core of the recovery
//! coordinator: the deterministic chunking scheme that makes recovery
//! resumable, the filter that decides which chunks still need work, the
//! per-chunk integrity checks, and the coordinator's decision logic.
//! The surrounding async runtime, database access and tree storage are
//! kept outside the library and drive it through plain values.

use vstd::prelude::*;

pub mod chunks;
pub mod coordinator;
pub mod entries;
pub mod errors;
pub mod filter;
pub mod resume;
pub mod snapshot;
pub mod u256;

verus! {

/// Target number of entries per chunk. This is intentionally a fixed
/// constant, never a runtime option: chunk boundaries must be identical
/// across restarts, or the resume-by-first-key protocol would treat the
/// same first key as belonging to different ranges.
pub const DESIRED_CHUNK_SIZE: u64 = 200_000;

} // verus!
