//! Fatal error kinds reported by the recovery core.

use vstd::prelude::*;

verus! {

/// Everything that can abort a recovery run. All kinds are fatal at the
/// coordinator; cooperative cancellation is *not* an error and is reported
/// as a successful result without a finalized tree.
#[derive(Clone, Copy, Debug, PartialEq, Eq, Structural)]
pub enum RecoveryError {
    /// The tree is recovering, but the source store no longer advertises a
    /// snapshot batch.
    SnapshotAbsent,
    /// The recovered version disagrees with the current snapshot's batch
    /// identifier, or a chunk's first entry exists in the tree with a value
    /// differing from the source store's.
    SnapshotDivergence,
    /// Two entries in one chunk share the same hashed key.
    SnapshotCorruption,
    /// The post-recovery tree root hash differs from the snapshot's
    /// expected root hash.
    RootHashMismatch,
    /// A source-store query failed or returned an unexpected shape.
    SourceStoreUnavailable,
    /// A tree lookup, extension or root-hash computation failed.
    TreeUnavailable,
}

} // verus!
