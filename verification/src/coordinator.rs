//! Decision core of the recovery coordinator and its chunk workers.
//!
//! The coordinator alternates between source-store and tree operations,
//! which suspend, and decisions, which do not. Every decision lives here
//! as a function from observed state and event to the next action, so the
//! driver around the library performs I/O and nothing else: it classifies
//! the tree, hands the answers in as plain values, and executes whatever
//! action comes back.

use vstd::prelude::*;
use crate::entries::no_adjacent_duplicates;
use crate::entries::TreeEntry;
use crate::errors::RecoveryError;
use crate::u256::U256;

verus! {

/// The tree's durable state, as classified at coordinator start.
#[derive(Clone, Copy, Debug, PartialEq, Eq, Structural)]
pub enum TreeState {
    /// No entries and no recovery in progress.
    Empty,
    /// A recovery was started earlier against the L1 batch recorded here,
    /// and survives restarts in the tree's own storage.
    Recovering { recovered_version: u64 },
    /// Non-empty and not recovering: fit for normal operation.
    Ready,
}

/// What the coordinator decides to do about the initial tree state.
#[derive(Clone, Copy, Debug, PartialEq, Eq, Structural)]
pub enum RecoveryPlan {
    /// The tree is already fit for normal operation: hand it back
    /// unchanged, without touching the source store for entry data.
    AlreadyReady,
    /// No snapshot exists: return a fresh empty tree so that normal
    /// operation bootstraps it from genesis.
    BootstrapFresh,
    /// Run or resume snapshot recovery against this L1 batch.
    Recover { l1_batch: u32 },
}

/// Decides how to make the tree ready, from its state and the source
/// store's advertised snapshot L1 batch.
///
/// A ready tree is left alone. A recovering tree must find the snapshot
/// it was started from: a missing snapshot batch is fatal, and so is a
/// batch other than the recorded recovered version — resuming against a
/// different snapshot would fold inconsistent entries into the tree. An
/// empty tree recovers from the advertised snapshot if there is one and
/// is bootstrapped fresh otherwise.
pub fn ensure_ready_plan(state: &TreeState, snapshot_batch: Option<u32>) -> (r: Result<
    RecoveryPlan,
    RecoveryError,
>)
    ensures
        match r {
            Ok(plan) => match *state {
                TreeState::Ready => plan == RecoveryPlan::AlreadyReady,
                TreeState::Recovering { recovered_version } => {
                    &&& snapshot_batch matches Some(b)
                    &&& b as u64 == recovered_version
                    &&& plan == (RecoveryPlan::Recover { l1_batch: b })
                },
                TreeState::Empty => match snapshot_batch {
                    Some(b) => plan == (RecoveryPlan::Recover { l1_batch: b }),
                    None => plan == RecoveryPlan::BootstrapFresh,
                },
            },
            Err(e) => match *state {
                TreeState::Ready => false,
                TreeState::Recovering { recovered_version } => match snapshot_batch {
                    None => e == RecoveryError::SnapshotAbsent,
                    Some(b) => e == RecoveryError::SnapshotDivergence && b as u64
                        != recovered_version,
                },
                TreeState::Empty => false,
            },
        },
{
    match state {
        TreeState::Ready => Ok(RecoveryPlan::AlreadyReady),
        TreeState::Recovering { recovered_version } => match snapshot_batch {
            None => Err(RecoveryError::SnapshotAbsent),
            Some(b) => {
                if b as u64 == *recovered_version {
                    Ok(RecoveryPlan::Recover { l1_batch: b })
                } else {
                    Err(RecoveryError::SnapshotDivergence)
                }
            },
        },
        TreeState::Empty => match snapshot_batch {
            Some(b) => Ok(RecoveryPlan::Recover { l1_batch: b }),
            None => Ok(RecoveryPlan::BootstrapFresh),
        },
    }
}

/// What a chunk worker does after its entries have been loaded and the
/// cancellation flag re-observed.
#[derive(Debug, PartialEq, Eq)]
pub enum ChunkOutcome {
    /// Cancellation was observed: finish without touching the tree. The
    /// chunk stays pending and the next run recovers it.
    Skipped,
    /// Extend the tree with exactly these entries.
    Extend(Vec<TreeEntry>),
}

/// Decision core of a chunk worker once the chunk's entries have arrived
/// from the source store, in key order.
///
/// Cancellation wins: a worker that has seen the stop signal finishes
/// without side effects. Otherwise the entries pass the duplicate-key
/// gate or the snapshot is corrupted and the run fails; entries that pass
/// are handed on for the tree unchanged.
pub fn process_loaded_entries(entries: Vec<TreeEntry>, cancelled: bool) -> (r: Result<
    ChunkOutcome,
    RecoveryError,
>)
    ensures
        match r {
            Ok(outcome) => match outcome {
                ChunkOutcome::Skipped => cancelled,
                ChunkOutcome::Extend(es) => {
                    &&& !cancelled
                    &&& no_adjacent_duplicates(entries@)
                    &&& es@ == entries@
                },
            },
            Err(e) => {
                &&& !cancelled
                &&& e == RecoveryError::SnapshotCorruption
                &&& !no_adjacent_duplicates(entries@)
            },
        },
{
    if cancelled {
        return Ok(ChunkOutcome::Skipped);
    }
    match crate::entries::validate_chunk_entries(&entries) {
        Ok(_) => Ok(ChunkOutcome::Extend(entries)),
        Err(e) => Err(e),
    }
}

/// How a finished run ends.
#[derive(Clone, Copy, Debug, PartialEq, Eq, Structural)]
pub enum FinalizeAction {
    /// The run was cancelled: leave the tree recovering, to be resumed by
    /// a later run. Not an error.
    Cancelled,
    /// The recovered tree reproduces the snapshot's root hash: finalize
    /// it and resume normal operation.
    Finalize,
}

/// Decides whether the tree may be finalized, after all workers have
/// joined.
///
/// A cancelled run stops quietly before the root hash is even compared.
/// Otherwise the tree's root hash must equal the snapshot's expected root
/// hash bit for bit; a mismatch means the recovered tree is corrupt and
/// must never be finalized.
pub fn finalize_decision(cancelled: bool, actual_root: &U256, expected_root: &U256) -> (r: Result<
    FinalizeAction,
    RecoveryError,
>)
    ensures
        match r {
            Ok(action) => match action {
                FinalizeAction::Cancelled => cancelled,
                FinalizeAction::Finalize => !cancelled && actual_root.as_int()
                    == expected_root.as_int(),
            },
            Err(e) => {
                &&& !cancelled
                &&& e == RecoveryError::RootHashMismatch
                &&& actual_root.as_int() != expected_root.as_int()
            },
        },
{
    if cancelled {
        return Ok(FinalizeAction::Cancelled);
    }
    if actual_root.w0 == expected_root.w0 && actual_root.w1 == expected_root.w1
        && actual_root.w2 == expected_root.w2 && actual_root.w3 == expected_root.w3 {
        Ok(FinalizeAction::Finalize)
    } else {
        proof {
            if actual_root.as_int() == expected_root.as_int() {
                U256::lemma_value_injective(*actual_root, *expected_root);
            }
        }
        Err(RecoveryError::RootHashMismatch)
    }
}

/// Progress record published after each recovered chunk: how many chunks
/// the run has in total and how many are already folded into the tree.
#[derive(Clone, Copy, Debug, PartialEq, Eq, Structural)]
pub struct RecoveryProgress {
    pub chunk_count: u64,
    pub recovered_chunk_count: u64,
}

impl RecoveryProgress {
    /// A progress record before recovery has started.
    pub fn new() -> (r: RecoveryProgress)
        ensures
            r.chunk_count == 0,
            r.recovered_chunk_count == 0,
    {
        RecoveryProgress { chunk_count: 0, recovered_chunk_count: 0 }
    }

    /// Called once, before any worker starts: records the chunk total and
    /// how many chunks the filter found already recovered.
    pub fn recovery_started(&mut self, chunk_count: u64, recovered_chunk_count: u64)
        requires
            recovered_chunk_count <= chunk_count,
        ensures
            final(self).chunk_count == chunk_count,
            final(self).recovered_chunk_count == recovered_chunk_count,
    {
        self.chunk_count = chunk_count;
        self.recovered_chunk_count = recovered_chunk_count;
    }

    /// Called after a worker's extend completes: one more chunk is in the
    /// tree.
    pub fn chunk_recovered(&mut self)
        requires
            old(self).recovered_chunk_count < old(self).chunk_count,
        ensures
            final(self).chunk_count == old(self).chunk_count,
            final(self).recovered_chunk_count == old(self).recovered_chunk_count + 1,
    {
        self.recovered_chunk_count = self.recovered_chunk_count + 1;
    }
}

} // verus!
