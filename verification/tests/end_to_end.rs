//! Recovery scenarios driven through the library's decision functions,
//! over an in-memory source store and tree. The tree's "root hash" is a
//! toy digest of its content: any deterministic function of the entry set
//! works, since the library only ever compares digests bit for bit.

use std::collections::BTreeMap;

use snapshot_recovery::chunks::{hashed_key_ranges, ChunkRange};
use snapshot_recovery::coordinator::{
    ensure_ready_plan, finalize_decision, process_loaded_entries, ChunkOutcome, FinalizeAction,
    RecoveryPlan, TreeState,
};
use snapshot_recovery::entries::TreeEntry;
use snapshot_recovery::errors::RecoveryError;
use snapshot_recovery::filter::{filter_chunks, start_keys};
use snapshot_recovery::u256::U256;

type Key = (u64, u64, u64, u64);

fn key_of(k: &U256) -> Key {
    (k.w3, k.w2, k.w1, k.w0)
}

fn in_range(k: Key, chunk: &ChunkRange) -> bool {
    key_of(&chunk.start) <= k && k <= key_of(&chunk.end)
}

#[derive(Default)]
struct MiniTree {
    recovered_version: Option<u64>,
    finalized: bool,
    entries: BTreeMap<Key, (U256, u64)>,
}

impl MiniTree {
    fn classify(&self) -> TreeState {
        if self.finalized {
            TreeState::Ready
        } else if let Some(recovered_version) = self.recovered_version {
            TreeState::Recovering { recovered_version }
        } else {
            TreeState::Empty
        }
    }

    fn lookup_many(&self, keys: &[U256]) -> Vec<Option<TreeEntry>> {
        keys.iter()
            .map(|key| {
                self.entries.get(&key_of(key)).map(|&(value, leaf_index)| TreeEntry {
                    key: *key,
                    value,
                    leaf_index,
                })
            })
            .collect()
    }

    fn extend(&mut self, entries: Vec<TreeEntry>) {
        for entry in entries {
            self.entries.insert(key_of(&entry.key), (entry.value, entry.leaf_index));
        }
    }

    fn root_hash(&self) -> U256 {
        let mut acc: u64 = 0x9e37_79b9_7f4a_7c15;
        for (key, (value, leaf_index)) in &self.entries {
            acc = acc
                .wrapping_mul(31)
                .wrapping_add(key.0 ^ key.3)
                .wrapping_add(value.w0)
                .wrapping_add(*leaf_index);
        }
        U256 { w0: acc, w1: acc ^ 0xabcd, w2: 0, w3: 0 }
    }
}

struct MiniStore {
    snapshot_batch: Option<u32>,
    entries: Vec<TreeEntry>,
    expected_root: U256,
}

#[derive(Default)]
struct SinkLog {
    started: Vec<(u64, u64)>,
    recovered: u64,
}

/// Drives one recovery run, with `concurrency_limit = 1` semantics:
/// pending chunks are processed in order. `stop_after > 0` raises the
/// cancellation flag once that many chunks have been recovered in this
/// run, like an event listener that stops the run from `chunk_recovered`.
fn run_recovery(
    tree: &mut MiniTree,
    store: &MiniStore,
    chunk_count: u64,
    stop_after: u64,
    sink: &mut SinkLog,
) -> Result<bool, RecoveryError> {
    let plan = ensure_ready_plan(&tree.classify(), store.snapshot_batch)?;
    let l1_batch = match plan {
        RecoveryPlan::AlreadyReady => return Ok(true),
        RecoveryPlan::BootstrapFresh => return Ok(true),
        RecoveryPlan::Recover { l1_batch } => l1_batch,
    };
    tree.recovered_version = Some(l1_batch as u64);

    let chunks = hashed_key_ranges(chunk_count);
    let starts: Vec<Option<TreeEntry>> = chunks
        .iter()
        .map(|chunk| store.entries.iter().find(|e| in_range(key_of(&e.key), chunk)).copied())
        .collect();
    let keys = start_keys(&starts);
    let answers = tree.lookup_many(&keys);
    let pending = filter_chunks(&chunks, &starts, &answers)?;
    sink.started.push((chunk_count, chunk_count - pending.len() as u64));

    let mut cancelled = false;
    let mut recovered_this_run: u64 = 0;
    for chunk in pending {
        let entries: Vec<TreeEntry> = store
            .entries
            .iter()
            .filter(|e| in_range(key_of(&e.key), &chunk))
            .copied()
            .collect();
        match process_loaded_entries(entries, cancelled)? {
            ChunkOutcome::Skipped => {}
            ChunkOutcome::Extend(entries) => {
                tree.extend(entries);
                sink.recovered += 1;
                recovered_this_run += 1;
                if stop_after > 0 && recovered_this_run >= stop_after {
                    cancelled = true;
                }
            }
        }
    }

    match finalize_decision(cancelled, &tree.root_hash(), &store.expected_root)? {
        FinalizeAction::Cancelled => Ok(false),
        FinalizeAction::Finalize => {
            tree.finalized = true;
            Ok(true)
        }
    }
}

fn mock_entries(count: u64) -> Vec<TreeEntry> {
    let step = u64::MAX / count;
    (0..count)
        .map(|i| TreeEntry {
            key: U256 { w0: i, w1: 0, w2: 0, w3: i * step },
            value: U256::from_u64(i * 17 + 3),
            leaf_index: i + 1,
        })
        .collect()
}

fn mock_store(entry_count: u64) -> (MiniStore, U256) {
    let entries = mock_entries(entry_count);
    let mut reference = MiniTree::default();
    reference.extend(entries.clone());
    let root = reference.root_hash();
    (MiniStore { snapshot_batch: Some(1), entries, expected_root: root }, root)
}

#[test]
fn single_chunk_recovery_completes() {
    let (store, root) = mock_store(250);
    let mut tree = MiniTree::default();
    let mut sink = SinkLog::default();
    let finalized = run_recovery(&mut tree, &store, 1, 0, &mut sink).unwrap();
    assert!(finalized);
    assert_eq!(tree.root_hash(), root);
    assert_eq!(sink.started, vec![(1, 0)]);
    assert_eq!(sink.recovered, 1);
}

#[test]
fn partitioned_recovery_reaches_the_same_root() {
    for chunk_count in [4u64, 9, 16, 60, 256] {
        let (store, root) = mock_store(250);
        let mut tree = MiniTree::default();
        let mut sink = SinkLog::default();
        let finalized = run_recovery(&mut tree, &store, chunk_count, 0, &mut sink).unwrap();
        assert!(finalized);
        assert_eq!(tree.root_hash(), root);
        assert_eq!(sink.started.len(), 1);
        if chunk_count <= 60 {
            // Every chunk holds at least one of the 250 spread-out
            // entries, so every chunk is recovered.
            assert_eq!(sink.recovered, chunk_count);
            assert_eq!(sink.started[0], (chunk_count, 0));
        } else {
            // 250 entries cannot populate 256 chunks; empty chunks need
            // no recovery and emit no event.
            assert_eq!(sink.recovered, sink.started[0].0 - sink.started[0].1);
        }
    }
}

#[test]
fn interrupted_recovery_resumes_where_it_stopped() {
    let (store, root) = mock_store(250);
    let mut tree = MiniTree::default();

    let mut sink = SinkLog::default();
    let finalized = run_recovery(&mut tree, &store, 5, 1, &mut sink).unwrap();
    assert!(!finalized);
    assert_ne!(tree.root_hash(), root);
    assert_eq!(sink.recovered, 1);

    let mut sink = SinkLog::default();
    let finalized = run_recovery(&mut tree, &store, 5, 2, &mut sink).unwrap();
    assert!(!finalized);
    assert_eq!(sink.started, vec![(5, 1)]);
    assert_ne!(tree.root_hash(), root);

    let mut sink = SinkLog::default();
    let finalized = run_recovery(&mut tree, &store, 5, 0, &mut sink).unwrap();
    assert!(finalized);
    assert_eq!(sink.started, vec![(5, 3)]);
    assert_eq!(sink.recovered, 2);
    assert_eq!(tree.root_hash(), root);
}

#[test]
fn recovery_of_ready_tree_is_a_no_op() {
    let (store, root) = mock_store(40);
    let mut tree = MiniTree::default();
    let mut sink = SinkLog::default();
    assert!(run_recovery(&mut tree, &store, 4, 0, &mut sink).unwrap());
    assert_eq!(tree.root_hash(), root);

    // A second invocation sees a ready tree and touches nothing.
    let mut sink = SinkLog::default();
    assert!(run_recovery(&mut tree, &store, 4, 0, &mut sink).unwrap());
    assert!(sink.started.is_empty());
    assert_eq!(sink.recovered, 0);
    assert_eq!(tree.root_hash(), root);
}

#[test]
fn diverging_snapshot_batch_aborts_resume() {
    let (store, _) = mock_store(40);
    let mut tree = MiniTree::default();
    tree.recovered_version = Some(1);

    let diverged = MiniStore { snapshot_batch: Some(2), ..store };
    let mut sink = SinkLog::default();
    let err = run_recovery(&mut tree, &diverged, 4, 0, &mut sink).unwrap_err();
    assert_eq!(err, RecoveryError::SnapshotDivergence);
    assert!(tree.entries.is_empty());
    assert!(!tree.finalized);
}

#[test]
fn diverging_snapshot_content_aborts_resume() {
    let (store, _) = mock_store(250);
    let mut tree = MiniTree::default();

    // Recover two of five chunks, then the snapshot's content and root
    // change under the same batch number.
    let mut sink = SinkLog::default();
    assert!(!run_recovery(&mut tree, &store, 5, 2, &mut sink).unwrap());
    let entries_after_first_run = tree.entries.clone();

    let mut changed_entries = store.entries.clone();
    for entry in &mut changed_entries {
        entry.value = U256::from_u64(entry.value.w0 + 1);
    }
    let mut reference = MiniTree::default();
    reference.extend(changed_entries.clone());
    let changed = MiniStore {
        snapshot_batch: Some(1),
        entries: changed_entries,
        expected_root: reference.root_hash(),
    };

    let mut sink = SinkLog::default();
    let err = run_recovery(&mut tree, &changed, 5, 0, &mut sink).unwrap_err();
    assert_eq!(err, RecoveryError::SnapshotDivergence);
    assert_eq!(tree.entries, entries_after_first_run);
    assert!(!tree.finalized);
}

#[test]
fn corrupted_chunk_aborts_recovery() {
    let (mut store, _) = mock_store(40);
    // Two entries with the same hashed key inside the single chunk.
    let duplicate = store.entries[10];
    store.entries.insert(11, TreeEntry { value: U256::from_u64(999), ..duplicate });

    let mut tree = MiniTree::default();
    let mut sink = SinkLog::default();
    let err = run_recovery(&mut tree, &store, 1, 0, &mut sink).unwrap_err();
    assert_eq!(err, RecoveryError::SnapshotCorruption);
    assert!(tree.entries.is_empty());
    assert!(!tree.finalized);
}

#[test]
fn root_hash_mismatch_blocks_finalization() {
    let (mut store, root) = mock_store(40);
    store.expected_root = U256 { w0: !root.w0, ..root };

    let mut tree = MiniTree::default();
    let mut sink = SinkLog::default();
    let err = run_recovery(&mut tree, &store, 4, 0, &mut sink).unwrap_err();
    assert_eq!(err, RecoveryError::RootHashMismatch);
    assert!(!tree.finalized);
    assert!(matches!(tree.classify(), TreeState::Recovering { .. }));
}
