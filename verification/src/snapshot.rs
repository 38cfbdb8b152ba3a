//! Immutable parameters of the snapshot a recovery run works from.
//!
//! The parameters are read from the source store once, at coordinator
//! start, and stay fixed for the whole run: the miniblock at which entries
//! are indexed, the root hash the finished tree must reproduce, and the
//! number of entries, from which the chunk count is derived.

use vstd::prelude::*;
use vstd::arithmetic::div_mod::lemma_div_plus_one;
use vstd::arithmetic::div_mod::lemma_div_nonincreasing;
use crate::errors::RecoveryError;
use crate::u256::U256;
use crate::DESIRED_CHUNK_SIZE;

verus! {

/// What the snapshot looks like to the recovery run.
#[derive(Clone, Copy, Debug, PartialEq, Eq, Structural)]
pub struct SnapshotParameters {
    /// Miniblock of the snapshot; all source-store queries of the run are
    /// parameterized by it.
    pub miniblock: u32,
    /// Root hash the recovered tree must match bit for bit.
    pub expected_root_hash: U256,
    /// Number of storage entries at the snapshot miniblock.
    pub log_count: u64,
}

/// Number of chunks for a snapshot of `log_count` entries: the entry
/// count divided by the target chunk size, rounded up, and at least 1.
pub open spec fn chunk_count_spec(log_count: u64) -> int {
    if log_count == 0 {
        1
    } else {
        (log_count - 1) / (DESIRED_CHUNK_SIZE as int) + 1
    }
}

/// Ceiling division of nonnegative `a` by positive `b`.
pub open spec fn ceil_div_spec(a: int, b: int) -> int {
    (a + b - 1) / b
}

/// Law: the derived chunk count is the ceiling of `log_count` over the
/// target chunk size, with a floor of one chunk for an empty snapshot.
pub proof fn lemma_chunk_count_is_ceil(log_count: u64)
    ensures
        log_count > 0 ==> chunk_count_spec(log_count) == ceil_div_spec(
            log_count as int, DESIRED_CHUNK_SIZE as int),
        log_count == 0 ==> chunk_count_spec(log_count) == 1,
        chunk_count_spec(log_count) >= 1,
{
    if log_count > 0 {
        lemma_div_plus_one(log_count - 1, DESIRED_CHUNK_SIZE as int);
        assert(log_count - 1 >= 0);
        vstd::arithmetic::div_mod::lemma_div_pos_is_pos(
            log_count - 1, DESIRED_CHUNK_SIZE as int);
    }
}

impl SnapshotParameters {
    /// Builds the run's parameters out of the three source-store answers:
    /// the miniblock range of the snapshot L1 batch, the batch's recorded
    /// root hash, and the entry count at the snapshot miniblock. A batch
    /// without miniblocks or without metadata cannot anchor a recovery.
    pub fn from_store_answers(
        miniblock_range: Option<(u32, u32)>,
        batch_root_hash: Option<U256>,
        log_count: u64,
    ) -> (r: Result<SnapshotParameters, RecoveryError>)
        ensures
            match r {
                Ok(p) => {
                    &&& miniblock_range matches Some(mr) && p.miniblock == mr.1
                    &&& batch_root_hash matches Some(h) && p.expected_root_hash == h
                    &&& p.log_count == log_count
                },
                Err(e) => {
                    &&& e == RecoveryError::SourceStoreUnavailable
                    &&& (miniblock_range is None || batch_root_hash is None)
                },
            },
    {
        match (miniblock_range, batch_root_hash) {
            (Some((_, miniblock)), Some(expected_root_hash)) => Ok(
                SnapshotParameters { miniblock, expected_root_hash, log_count },
            ),
            _ => Err(RecoveryError::SourceStoreUnavailable),
        }
    }

    /// Number of chunks this snapshot is recovered in.
    pub fn chunk_count(&self) -> (r: u64)
        ensures
            r == chunk_count_spec(self.log_count),
            r >= 1,
    {
        if self.log_count == 0 {
            1
        } else {
            proof {
                lemma_div_nonincreasing(self.log_count - 1, DESIRED_CHUNK_SIZE as int);
            }
            (self.log_count - 1) / DESIRED_CHUNK_SIZE + 1
        }
    }
}

} // verus!
