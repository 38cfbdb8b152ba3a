//! Model of resumable recovery.
//!
//! The tree's durable content is, at every instant, the union of the
//! entries of the chunks folded in so far: chunks are disjoint slices of
//! the key space, extends are whole chunks, and nothing is ever rolled
//! back. This module states the law that makes cancellation safe: the
//! final content of the tree does not depend on how the chunk set was
//! split between an interrupted run and the runs that resume it.

use vstd::prelude::*;
use crate::chunks::is_chunk_ranges;
use crate::chunks::lemma_chunks_disjoint;
use crate::chunks::ChunkRange;
use crate::entries::TreeEntry;
use crate::u256::p64;

verus! {

/// Every entry's hashed key lies inside the chunk's range.
pub open spec fn entries_in_chunk(entries: Seq<TreeEntry>, chunk: ChunkRange) -> bool {
    forall|k: int| 0 <= k < entries.len() ==> chunk.start.as_int()
        <= (#[trigger] entries[k].key.as_int()) && entries[k].key.as_int() <= chunk.end.as_int()
}

/// The chunk indices of an `n`-chunk run.
pub open spec fn all_chunk_indices(n: int) -> Set<int> {
    Set::new(|i: int| 0 <= i < n)
}

/// Chunk `i` is selected by `idxs` and contributes entry `e`.
pub open spec fn chunk_has(
    chunk_entries: Seq<Seq<TreeEntry>>,
    idxs: Set<int>,
    i: int,
    e: TreeEntry,
) -> bool {
    idxs.contains(i) && 0 <= i < chunk_entries.len() && chunk_entries[i].contains(e)
}

/// All entries of the chunks selected by `idxs`, as one set — the tree
/// content after exactly those chunks have been folded in.
pub open spec fn entries_union(chunk_entries: Seq<Seq<TreeEntry>>, idxs: Set<int>) -> Set<
    TreeEntry,
> {
    Set::new(|e: TreeEntry| exists|i: int| chunk_has(chunk_entries, idxs, i, e))
}

/// Law: resumed recovery converges to the uninterrupted result. If a run
/// is cancelled after folding any subset of the chunks, a later run that
/// folds the remaining chunks leaves the tree with exactly the content a
/// single uninterrupted run would have produced — no entry is lost and
/// none is invented, whatever the split.
pub proof fn lemma_resume_round_trip(chunk_entries: Seq<Seq<TreeEntry>>, done: Set<int>)
    requires
        forall|i: int| done.contains(i) ==> 0 <= i < chunk_entries.len(),
    ensures
        entries_union(chunk_entries, done).union(
            entries_union(
                chunk_entries,
                all_chunk_indices(chunk_entries.len() as int).difference(done),
            ),
        ) == entries_union(chunk_entries, all_chunk_indices(chunk_entries.len() as int)),
{
    let n = chunk_entries.len() as int;
    let all = all_chunk_indices(n);
    let rest = all.difference(done);
    let folded = entries_union(chunk_entries, done);
    let resumed = entries_union(chunk_entries, rest);
    let single = entries_union(chunk_entries, all);
    assert forall|e: TreeEntry| folded.union(resumed).contains(e) implies single.contains(
        e,
    ) by {
        if folded.contains(e) {
            let i = choose|i: int| chunk_has(chunk_entries, done, i, e);
            assert(chunk_has(chunk_entries, all, i, e));
        } else {
            let i = choose|i: int| chunk_has(chunk_entries, rest, i, e);
            assert(chunk_has(chunk_entries, all, i, e));
        }
    }
    assert forall|e: TreeEntry| single.contains(e) implies folded.union(resumed).contains(
        e,
    ) by {
        let i = choose|i: int| chunk_has(chunk_entries, all, i, e);
        if done.contains(i) {
            assert(chunk_has(chunk_entries, done, i, e));
        } else {
            assert(chunk_has(chunk_entries, rest, i, e));
        }
    }
    assert(folded.union(resumed) =~= single);
}

/// Law: the partition separates keys. When every chunk's entries lie
/// inside its range and the ranges are those of the partition, an entry
/// of chunk `i` has a hashed key that no other chunk's entries carry —
/// the premise under which a first key identifies its chunk.
pub proof fn lemma_partition_separates_keys(
    ranges: Seq<ChunkRange>,
    chunk_entries: Seq<Seq<TreeEntry>>,
    n: int,
    i: int,
    e: TreeEntry,
)
    requires
        1 <= n < p64(),
        is_chunk_ranges(ranges, n),
        chunk_entries.len() == n,
        forall|j: int| 0 <= j < n ==> entries_in_chunk(#[trigger] chunk_entries[j], ranges[j]),
        0 <= i < n,
        chunk_entries[i].contains(e),
    ensures
        forall|j: int, f: TreeEntry|
            0 <= j < n && j != i && #[trigger] chunk_entries[j].contains(f) ==> f.key != e.key,
{
    let ki = choose|k: int| 0 <= k < chunk_entries[i].len() && chunk_entries[i][k] == e;
    assert forall|j: int, f: TreeEntry|
        0 <= j < n && j != i && #[trigger] chunk_entries[j].contains(f) implies f.key
        != e.key by {
        let kj = choose|k: int| 0 <= k < chunk_entries[j].len() && chunk_entries[j][k] == f;
        assert(ranges[j].start.as_int() <= chunk_entries[j][kj].key.as_int());
        assert(ranges[i].start.as_int() <= chunk_entries[i][ki].key.as_int());
        if j < i {
            lemma_chunks_disjoint(ranges, n, j, i);
        } else {
            lemma_chunks_disjoint(ranges, n, i, j);
        }
    }
}

/// Law: the first key of a chunk decides whether the chunk was folded.
/// If entry `e` belongs to chunk `i` and its hashed key occurs in no
/// other chunk — which the partition guarantees, since chunks are
/// disjoint key ranges — then the tree, holding exactly the chunks of
/// `done`, has an entry under `e`'s key exactly when chunk `i` is among
/// them. This is why the chunk filter can read the resume state out of
/// the tree itself, with no separate checkpoint.
pub proof fn lemma_first_key_detects_done(
    chunk_entries: Seq<Seq<TreeEntry>>,
    done: Set<int>,
    i: int,
    e: TreeEntry,
)
    requires
        forall|j: int| done.contains(j) ==> 0 <= j < chunk_entries.len(),
        0 <= i < chunk_entries.len(),
        chunk_entries[i].contains(e),
        forall|j: int, f: TreeEntry|
            0 <= j < chunk_entries.len() && j != i && #[trigger] chunk_entries[j].contains(f)
                ==> f.key != e.key,
    ensures
        done.contains(i) <==> exists|f: TreeEntry|
            #[trigger] entries_union(chunk_entries, done).contains(f) && f.key == e.key,
{
    if done.contains(i) {
        assert(chunk_has(chunk_entries, done, i, e));
        assert(entries_union(chunk_entries, done).contains(e) && e.key == e.key);
    }
    if exists|f: TreeEntry|
        #[trigger] entries_union(chunk_entries, done).contains(f) && f.key == e.key {
        let f = choose|f: TreeEntry|
            #[trigger] entries_union(chunk_entries, done).contains(f) && f.key == e.key;
        let j = choose|j: int| chunk_has(chunk_entries, done, j, f);
        if j != i {
            assert(chunk_entries[j].contains(f));
        }
        assert(done.contains(i));
    }
}

/// Law: a chunk extended twice changes nothing. Folding the chunks of
/// `done` again, on top of a tree that already holds them, leaves the
/// content as it was — which is why a worker that was cancelled after its
/// extend, before the chunk filter could observe it, is harmless.
pub proof fn lemma_refold_idempotent(chunk_entries: Seq<Seq<TreeEntry>>, done: Set<int>)
    ensures
        entries_union(chunk_entries, done).union(entries_union(chunk_entries, done))
            == entries_union(chunk_entries, done),
{
    let folded = entries_union(chunk_entries, done);
    assert(folded.union(folded) =~= folded);
}

} // verus!
