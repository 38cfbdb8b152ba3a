//! The chunk filter: decides which chunks still need to be recovered.
//!
//! The source store reports, per chunk, the lowest-keyed entry inside the
//! chunk at the snapshot miniblock; the tree reports, per such first key,
//! the entry it holds, if any. A chunk whose first entry is missing from
//! the tree is pending. A chunk whose first entry is present must agree
//! with the source store — disagreement means the tree was recovered from
//! a different snapshot, which is fatal. Chunks that are empty in the
//! snapshot need no work at all.

use vstd::prelude::*;
use crate::chunks::ChunkRange;
use crate::entries::TreeEntry;
use crate::errors::RecoveryError;
use crate::u256::U256;

verus! {

/// How many of the first `i` chunk starts are present in the snapshot.
pub open spec fn present_count(starts: Seq<Option<TreeEntry>>, i: int) -> int
    decreases i,
{
    if i <= 0 {
        0
    } else {
        present_count(starts, i - 1) + if starts[i - 1] is Some {
            1int
        } else {
            0int
        }
    }
}

/// The hashed keys of the present chunk starts, in chunk order.
pub open spec fn present_start_keys(starts: Seq<Option<TreeEntry>>, i: int) -> Seq<U256>
    decreases i,
{
    if i <= 0 {
        Seq::empty()
    } else {
        let prefix = present_start_keys(starts, i - 1);
        match starts[i - 1] {
            Some(e) => prefix.push(e.key),
            None => prefix,
        }
    }
}

/// Chunk `i` is pending: the snapshot has a first entry for it, and the
/// tree knows nothing under that key yet.
pub open spec fn chunk_pending(
    starts: Seq<Option<TreeEntry>>,
    answers: Seq<Option<TreeEntry>>,
    i: int,
) -> bool {
    starts[i] is Some && answers[present_count(starts, i)] is None
}

/// Chunk `i` is divergent: the tree holds an entry under the chunk's
/// first key, but its value or leaf index disagrees with the source
/// store's.
pub open spec fn chunk_divergent(
    starts: Seq<Option<TreeEntry>>,
    answers: Seq<Option<TreeEntry>>,
    i: int,
) -> bool {
    &&& starts[i] matches Some(db)
    &&& answers[present_count(starts, i)] matches Some(te)
    &&& (te.value != db.value || te.leaf_index != db.leaf_index)
}

/// The pending subset of the first `i` chunks, in original chunk order.
pub open spec fn pending_chunks(
    chunks: Seq<ChunkRange>,
    starts: Seq<Option<TreeEntry>>,
    answers: Seq<Option<TreeEntry>>,
    i: int,
) -> Seq<ChunkRange>
    decreases i,
{
    if i <= 0 {
        Seq::empty()
    } else {
        let prefix = pending_chunks(chunks, starts, answers, i - 1);
        if chunk_pending(starts, answers, i - 1) {
            prefix.push(chunks[i - 1])
        } else {
            prefix
        }
    }
}

/// The present count grows by at most one per chunk and never shrinks.
proof fn lemma_present_count_bounds(starts: Seq<Option<TreeEntry>>, i: int, j: int)
    requires
        0 <= i <= j,
    ensures
        0 <= present_count(starts, i) <= i,
        present_count(starts, i) <= present_count(starts, j),
    decreases j,
{
    if j > 0 {
        if i == j {
            lemma_present_count_bounds(starts, i - 1, j - 1);
        } else {
            lemma_present_count_bounds(starts, i, j - 1);
        }
    }
}

/// Never more chunks pending than there are chunks.
proof fn lemma_pending_at_most_all(
    chunks: Seq<ChunkRange>,
    starts: Seq<Option<TreeEntry>>,
    answers: Seq<Option<TreeEntry>>,
    i: int,
)
    ensures
        pending_chunks(chunks, starts, answers, i).len() <= if i >= 0 {
            i
        } else {
            0
        },
    decreases i,
{
    if i > 0 {
        lemma_pending_at_most_all(chunks, starts, answers, i - 1);
    }
}

/// Collects the hashed keys whose tree entries the filter needs: the key
/// of each chunk's first entry, for the chunks the snapshot populates.
pub fn start_keys(starts: &Vec<Option<TreeEntry>>) -> (r: Vec<U256>)
    ensures
        r@ == present_start_keys(starts@, starts@.len() as int),
        r@.len() == present_count(starts@, starts@.len() as int),
{
    let mut out: Vec<U256> = Vec::new();
    let mut i: usize = 0;
    proof {
        lemma_present_count_bounds(starts@, 0, 0);
    }
    while i < starts.len()
        invariant
            i <= starts@.len(),
            out@ == present_start_keys(starts@, i as int),
            out@.len() == present_count(starts@, i as int),
        decreases starts@.len() - i,
    {
        match &starts[i] {
            Some(e) => {
                out.push(e.key);
            },
            None => {},
        }
        i = i + 1;
    }
    out
}

/// Filters out the chunks for which recovery was already performed.
///
/// `starts` holds, per chunk, the snapshot's first entry inside that
/// chunk; `answers` holds, per *present* first entry and in chunk order,
/// the tree's current entry under that key. Present chunks unknown to the
/// tree come back, in their original order; present chunks the tree
/// already holds must agree with the snapshot, or the whole run fails
/// with a divergence error; empty chunks need nothing.
pub fn filter_chunks(
    chunks: &Vec<ChunkRange>,
    starts: &Vec<Option<TreeEntry>>,
    answers: &Vec<Option<TreeEntry>>,
) -> (r: Result<Vec<ChunkRange>, RecoveryError>)
    requires
        starts@.len() == chunks@.len(),
        answers@.len() == present_count(starts@, starts@.len() as int),
    ensures
        match r {
            Ok(out) => {
                &&& out@ == pending_chunks(chunks@, starts@, answers@, chunks@.len() as int)
                &&& out@.len() <= chunks@.len()
                &&& forall|i: int| 0 <= i < chunks@.len() ==> !chunk_divergent(starts@, answers@, i)
            },
            Err(e) => {
                &&& e == RecoveryError::SnapshotDivergence
                &&& exists|i: int| 0 <= i < chunks@.len() && chunk_divergent(starts@, answers@, i)
            },
        },
{
    let n = chunks.len();
    let mut out: Vec<ChunkRange> = Vec::new();
    let mut present: usize = 0;
    let mut i: usize = 0;
    while i < n
        invariant
            n == chunks@.len(),
            starts@.len() == n,
            answers@.len() == present_count(starts@, n as int),
            i <= n,
            present == present_count(starts@, i as int),
            out@ == pending_chunks(chunks@, starts@, answers@, i as int),
            forall|j: int| 0 <= j < i ==> !chunk_divergent(starts@, answers@, j),
        decreases n - i,
    {
        proof {
            lemma_present_count_bounds(starts@, i as int, n as int);
            lemma_present_count_bounds(starts@, i as int + 1, n as int);
        }
        match &starts[i] {
            None => {},
            Some(db) => {
                match &answers[present] {
                    None => {
                        out.push(chunks[i]);
                    },
                    Some(te) => {
                        if te.value != db.value || te.leaf_index != db.leaf_index {
                            proof {
                                assert(chunk_divergent(starts@, answers@, i as int));
                            }
                            return Err(RecoveryError::SnapshotDivergence);
                        }
                    },
                }
                present = present + 1;
            },
        }
        i = i + 1;
    }
    proof {
        lemma_pending_at_most_all(chunks@, starts@, answers@, n as int);
    }
    Ok(out)
}

} // verus!
