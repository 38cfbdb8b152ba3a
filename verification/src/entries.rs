//! Tree entries and the per-chunk integrity check.
//!
//! Entries stream out of the source store sorted by hashed key. The tree
//! is an unordered sink within a batch: if two entries shared a key, one
//! value would be silently discarded. The duplicate check below is
//! therefore the load-bearing sanity gate of a chunk worker, and together
//! with the sort order it yields global key uniqueness.

use vstd::prelude::*;
use crate::errors::RecoveryError;
use crate::u256::U256;

verus! {

/// One key/value leaf to be folded into the tree.
#[derive(Clone, Copy, Debug, PartialEq, Eq, Structural)]
pub struct TreeEntry {
    /// 256-bit hashed key addressing the leaf.
    pub key: U256,
    /// 32-byte word stored under the key.
    pub value: U256,
    /// Position of the leaf; always positive in a well-formed snapshot.
    pub leaf_index: u64,
}

/// No two neighbouring entries share a hashed key.
pub open spec fn no_adjacent_duplicates(s: Seq<TreeEntry>) -> bool {
    forall|i: int| 0 <= i < s.len() - 1 ==> #[trigger] s[i].key != s[i + 1].key
}

/// The entries are sorted by hashed key, ascending.
pub open spec fn sorted_by_key(s: Seq<TreeEntry>) -> bool {
    forall|i: int, j: int| 0 <= i < j < s.len() ==> #[trigger] s[i].key.as_int()
        <= #[trigger] s[j].key.as_int()
}

/// All hashed keys in the batch are distinct.
pub open spec fn unique_keys(s: Seq<TreeEntry>) -> bool {
    forall|i: int, j: int| 0 <= i < j < s.len() ==> #[trigger] s[i].key != #[trigger] s[j].key
}

/// Checks that no two neighbouring entries of a loaded chunk share a
/// hashed key. A duplicate means the snapshot in the source store is
/// corrupted, and extending the tree would silently drop a value.
pub fn validate_chunk_entries(entries: &Vec<TreeEntry>) -> (r: Result<(), RecoveryError>)
    ensures
        match r {
            Ok(_) => no_adjacent_duplicates(entries@),
            Err(e) => e == RecoveryError::SnapshotCorruption && !no_adjacent_duplicates(entries@),
        },
{
    let n = entries.len();
    if n == 0 {
        return Ok(());
    }
    let mut i: usize = 0;
    while i < n - 1
        invariant
            n == entries@.len(),
            n >= 1,
            i <= n - 1,
            forall|j: int| 0 <= j < i ==> #[trigger] entries@[j].key != entries@[j + 1].key,
        decreases n - i,
    {
        if entries[i].key == entries[i + 1].key {
            return Err(RecoveryError::SnapshotCorruption);
        }
        i = i + 1;
    }
    Ok(())
}

/// Two consecutive entries of a sorted, duplicate-free batch grow
/// strictly; by induction, so does any pair.
proof fn lemma_strict_growth(s: Seq<TreeEntry>, i: int, j: int)
    requires
        sorted_by_key(s),
        no_adjacent_duplicates(s),
        0 <= i < j < s.len(),
    ensures
        s[i].key.as_int() < s[j].key.as_int(),
    decreases j - i,
{
    if j == i + 1 {
        if s[i].key.as_int() == s[j].key.as_int() {
            U256::lemma_value_injective(s[i].key, s[j].key);
        }
    } else {
        lemma_strict_growth(s, i, j - 1);
        lemma_strict_growth(s, j - 1, j);
    }
}

/// Law: in a batch sorted by hashed key, the adjacent-pair check is
/// enough — once it passes, every pair of entries has distinct keys, so
/// the batch is a function of its keys and the tree may fold it in any
/// order.
pub proof fn lemma_validated_entries_unique(s: Seq<TreeEntry>)
    requires
        sorted_by_key(s),
        no_adjacent_duplicates(s),
    ensures
        unique_keys(s),
{
    assert forall|i: int, j: int| 0 <= i < j < s.len() implies #[trigger] s[i].key
        != #[trigger] s[j].key by {
        lemma_strict_growth(s, i, j);
    }
}

} // verus!
