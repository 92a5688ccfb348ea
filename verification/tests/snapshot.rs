//! Versions of files: their tree, their log, their storage and what is worth a snapshot.

use std::collections::HashMap;
use std::sync::Arc;
use z3rm::ancestor_table::AncestorTable;
use z3rm::blob_store::{
    hash_to_hex, shard_dir, trigger_name, BlobError, BlobStore, PutAction, UnrefAction,
    INLINE_THRESHOLD,
};
use z3rm::decline::{DeclineProtocol, DeclineStep};
use z3rm::hashing::{same_hash, to_hex};
use z3rm::id_set::IdSet;
use z3rm::lca::{build_ancestor_table, compute_depth, compute_lca, TABLE_LEN};
use z3rm::memtable::{MemTable, PathChange};
use z3rm::monitor::{ignore_file_names, CircuitBreaker, IgnoreFilter, Monitor, SECOND};
use z3rm::quota::{QuotaManager, DEFAULT_GRACE_PERIOD};
use z3rm::version_tree::{DeltaRef, SnapshotTrigger, VersionNode, VersionTree};
use z3rm::wal::{decode_entry, encode_entry, replay, Wal, WalEntry, WalError, MAGIC};

fn node(id: u64, parent: Option<u64>) -> VersionNode {
    VersionNode {
        version_id: id,
        path_hash: [0u8; 32],
        seq_no: id,
        timestamp_ns: 0,
        parent_id: parent,
        ancestors: AncestorTable::new(),
        full_content: None,
        delta: None,
        delta_depth: 0,
        trigger: SnapshotTrigger::Write,
    }
}

fn nodes_of(pairs: &[(u64, Option<u64>)]) -> HashMap<u64, Arc<VersionNode>> {
    pairs.iter().map(|&(id, parent)| (id, Arc::new(node(id, parent)))).collect()
}

#[test]
fn test_lca_siblings() {
    let nodes = nodes_of(&[(1, None), (2, Some(1)), (3, Some(1))]);
    assert_eq!(compute_lca(&nodes, 2, 3), Some(1));
}

#[test]
fn test_lca_same_node() {
    let nodes = nodes_of(&[(1, None)]);
    assert_eq!(compute_lca(&nodes, 1, 1), Some(1));
}

#[test]
fn test_lca_ancestor_descendant() {
    let nodes = nodes_of(&[(1, None), (2, Some(1)), (3, Some(2)), (4, Some(3))]);
    assert_eq!(compute_lca(&nodes, 1, 4), Some(1));
    assert_eq!(compute_lca(&nodes, 2, 4), Some(2));
}

#[test]
fn test_depth_computation() {
    let nodes = nodes_of(&[(1, None), (2, Some(1)), (3, Some(2))]);
    assert_eq!(compute_depth(&nodes, 1), 0);
    assert_eq!(compute_depth(&nodes, 2), 1);
    assert_eq!(compute_depth(&nodes, 3), 2);
}

#[test]
fn the_nearest_common_ancestor_does_not_depend_on_the_order() {
    let nodes = nodes_of(&[(1, None), (2, Some(1)), (3, Some(2)), (4, Some(2)), (5, Some(4))]);
    assert_eq!(compute_lca(&nodes, 3, 5), Some(2));
    assert_eq!(compute_lca(&nodes, 5, 3), Some(2));
    let forest = nodes_of(&[(1, None), (2, None)]);
    assert_eq!(compute_lca(&forest, 1, 2), None);
}

#[test]
fn a_table_holds_ancestors_at_powers_of_two() {
    let pairs: Vec<(u64, Option<u64>)> =
        (0..20).map(|id| (id, if id == 0 { None } else { Some(id - 1) })).collect();
    let nodes = nodes_of(&pairs);
    let table = build_ancestor_table(&nodes[&19], &nodes);
    assert_eq!(table.get(0), Some(18));
    assert_eq!(table.get(1), Some(17));
    assert_eq!(table.get(2), Some(15));
    assert_eq!(table.get(3), Some(11));
    assert_eq!(table.get(4), Some(3));
    assert_eq!(table.get(5), None);
    assert_eq!(build_ancestor_table(&nodes[&0], &nodes).get(0), None);
    assert_eq!(TABLE_LEN, 16);
}

fn make_change(seq_no: u64, hash_val: u8) -> PathChange {
    PathChange { path_hash: [hash_val; 32], seq_no, content: None }
}

#[test]
fn test_insert_and_get() {
    let mut mt = MemTable::new(16);
    mt.insert(1, make_change(1, 0xAA));

    let got = mt.get(1);
    assert!(got.is_some());
    let got = got.unwrap();
    assert_eq!(got.seq_no, 1);
}

#[test]
fn test_range_query() {
    let mut mt = MemTable::new(16);

    mt.insert(1, make_change(1, 0x01));
    mt.insert(2, make_change(2, 0x02));
    mt.insert(3, make_change(3, 0x01));
    mt.insert(4, make_change(4, 0x03));

    let changed = mt.query_changed_files(1, 3);
    assert_eq!(changed.len(), 2);

    let changed = mt.query_changed_files(2, 4);
    assert_eq!(changed.len(), 3);
}

#[test]
fn test_trim_before() {
    let mut mt = MemTable::new(16);
    for i in 1..=5 {
        mt.insert(i, make_change(i, i as u8));
    }
    mt.trim_before(4);

    assert_eq!(mt.len(), 2);
    assert!(mt.get(1).is_none());
    assert!(mt.get(4).is_some());
}

#[test]
fn the_content_that_was_used_longest_ago_leaves_the_cache() {
    let mut mt = MemTable::new(2);
    let change = |seq_no: u64, hash: u8, text: &str| PathChange {
        path_hash: [hash; 32],
        seq_no,
        content: Some(text.to_string()),
    };
    mt.insert(1, change(1, 1, "one"));
    mt.insert(2, change(2, 2, "two"));
    assert_eq!(mt.get_cached_rope(&[1; 32]).as_deref(), Some("one"));
    mt.insert(3, change(3, 3, "three"));
    assert_eq!(mt.get_cached_rope(&[2; 32]), None);
    assert_eq!(mt.get_cached_rope(&[1; 32]).as_deref(), Some("one"));
    assert_eq!(mt.get_cached_rope(&[3; 32]).as_deref(), Some("three"));
    assert_eq!(mt.latest_seq(), Some(3));
    mt.clear();
    assert!(mt.is_empty());
    assert_eq!(mt.get_cached_rope(&[1; 32]), None);
    assert_eq!(mt.latest_seq(), None);
}

#[test]
fn a_cache_without_room_keeps_nothing() {
    let mut mt = MemTable::new(0);
    mt.insert(
        1,
        PathChange { path_hash: [1; 32], seq_no: 1, content: Some("x".to_string()) },
    );
    assert_eq!(mt.get_cached_rope(&[1; 32]), None);
    assert_eq!(mt.get(1).unwrap().content.as_deref(), Some("x"));
    assert!(MemTable::default().is_empty());
}

fn make_entry(seq_no: u64) -> WalEntry {
    WalEntry {
        seq_no,
        path_hash: [seq_no as u8; 32],
        parent_id: Some(seq_no - 1),
        content_ref: None,
        delta_ref: None,
        trigger: SnapshotTrigger::Write,
    }
}

#[test]
fn test_wal_append_and_replay() {
    let mut wal = Wal::new();

    for i in 1..=5 {
        wal.append(&make_entry(i));
    }
    let log = wal.commit();

    let entries = replay(&log).unwrap();
    assert_eq!(entries.len(), 5);
    for (i, entry) in entries.iter().enumerate() {
        assert_eq!(entry.seq_no, (i as u64 + 1));
    }
}

#[test]
fn test_wal_checkpoint_clears_log() {
    let mut wal = Wal::new();

    for i in 1..=3 {
        wal.append(&make_entry(i));
    }
    let mut log = wal.commit();

    let entries = replay(&log).unwrap();
    assert_eq!(entries.len(), 3);

    wal.checkpoint();
    log.clear();

    let entries = replay(&log).unwrap();
    assert_eq!(entries.len(), 0);
    assert!(wal.commit().is_empty());
}

#[test]
fn test_wal_all_triggers() {
    let mut wal = Wal::new();

    let triggers = [
        SnapshotTrigger::Write,
        SnapshotTrigger::Close,
        SnapshotTrigger::Debounce,
        SnapshotTrigger::Decline,
        SnapshotTrigger::Delete,
    ];

    for (i, trigger) in triggers.iter().enumerate() {
        let entry = WalEntry {
            seq_no: (i + 1) as u64,
            path_hash: [0u8; 32],
            parent_id: None,
            content_ref: None,
            delta_ref: None,
            trigger: *trigger,
        };
        wal.append(&entry);
    }
    let log = wal.commit();

    let entries = replay(&log).unwrap();
    assert_eq!(entries.len(), 5);
    for (i, entry) in entries.iter().enumerate() {
        assert_eq!(entry.trigger, triggers[i]);
    }
}

#[test]
fn a_record_reads_back_and_a_cut_one_is_refused() {
    let entry = WalEntry {
        seq_no: 7,
        path_hash: [3; 32],
        parent_id: Some(6),
        content_ref: Some([4; 32]),
        delta_ref: Some(DeltaRef { hash: [5; 32], compressed_size: 99 }),
        trigger: SnapshotTrigger::Delete,
    };
    let mut log = Vec::new();
    encode_entry(&entry, &mut log);
    assert_eq!(&log[..4], &MAGIC.to_le_bytes());
    let (read, end) = decode_entry(&log, 4).unwrap();
    assert_eq!(end + 8, log.len());
    assert_eq!(read.content_ref, Some([4; 32]));
    assert_eq!(read.delta_ref.unwrap().compressed_size, 99);
    assert_eq!(read.parent_id, Some(6));
    for cut in 5..log.len() {
        assert_eq!(replay(&log[..cut]).unwrap_err(), WalError::UnexpectedEof);
    }
    assert_eq!(replay(&log).unwrap().len(), 1);
}

#[test]
fn a_record_with_a_wrong_checksum_ends_the_log() {
    let mut wal = Wal::new();
    for seq_no in 0..3 {
        wal.append(&WalEntry {
            seq_no,
            path_hash: [1; 32],
            parent_id: None,
            content_ref: None,
            delta_ref: None,
            trigger: SnapshotTrigger::Write,
        });
    }
    let mut log = wal.commit();
    let record = log.len() / 3;
    assert_eq!(record, 4 + 8 + 32 + 3 + 1 + 8);
    log[record + 20] ^= 1;
    assert_eq!(replay(&log).unwrap().len(), 1);
    let mut sum: u64 = 0xcbf2_9ce4_8422_2325;
    for byte in &log[..record - 8] {
        sum = (sum ^ u64::from(*byte)).wrapping_mul(0x0100_0000_01b3);
    }
    assert_eq!(&log[record - 8..record], &sum.to_le_bytes());
}

#[test]
fn test_decline_pending_check() {
    let mut wal = Wal::new();

    let content_hash = DeclineProtocol::compute_hash(b"test");
    let entry = WalEntry {
        seq_no: 1,
        path_hash: [0xBB; 32],
        parent_id: None,
        content_ref: Some(content_hash),
        delta_ref: None,
        trigger: SnapshotTrigger::Decline,
    };
    wal.append(&entry);
    let log = wal.commit();

    let found = DeclineProtocol::check_pending(&log, [0xBB; 32]).unwrap();
    assert!(found.is_some());
    assert_eq!(found.unwrap(), content_hash);

    let found = DeclineProtocol::check_pending(&log, [0xCC; 32]).unwrap();
    assert!(found.is_none());
}

#[test]
fn test_decline_recovery() {
    let mut wal = Wal::new();

    wal.append(&WalEntry {
        seq_no: 1,
        path_hash: [0xDD; 32],
        parent_id: None,
        content_ref: Some(DeclineProtocol::compute_hash(b"recovery test")),
        delta_ref: None,
        trigger: SnapshotTrigger::Decline,
    });

    wal.append(&WalEntry {
        seq_no: 2,
        path_hash: [0xEE; 32],
        parent_id: None,
        content_ref: None,
        delta_ref: None,
        trigger: SnapshotTrigger::Write,
    });
    let log = wal.commit();

    let pending = DeclineProtocol::recover(&log).unwrap();
    assert_eq!(pending.len(), 1);
    assert_eq!(pending[0].trigger, SnapshotTrigger::Decline);
}

#[test]
fn test_decline_protocol_full() {
    let protocol = DeclineProtocol::new(1);
    let content = b"decline target content";
    let mut run = protocol.execute([0xAA; 32], None, content);

    let mut wal = Wal::new();
    let mut log: Vec<u8> = Vec::new();
    let mut file: Option<Vec<u8>> = None;
    let mut steps = Vec::new();
    while run.step != DeclineStep::Finished {
        steps.push(run.step);
        match run.step {
            DeclineStep::Append => wal.append(&run.entry),
            DeclineStep::Commit => log.extend(wal.commit()),
            DeclineStep::WriteFile => file = Some(content.to_vec()),
            DeclineStep::SyncFile => assert!(file.is_some()),
            DeclineStep::Finished => unreachable!(),
        }
        run.completed();
    }
    assert_eq!(
        steps,
        vec![
            DeclineStep::Append,
            DeclineStep::Commit,
            DeclineStep::WriteFile,
            DeclineStep::SyncFile,
        ]
    );

    assert_eq!(file.unwrap(), content.as_slice());

    let entries = replay(&log).unwrap();
    assert_eq!(entries.len(), 1);
    assert_eq!(entries[0].trigger, SnapshotTrigger::Decline);
    assert_eq!(entries[0].content_ref, Some(run.content_hash));
}

#[test]
fn test_decline_crash_between_step1_step2() {
    let protocol = DeclineProtocol::new(1);
    let mut run = protocol.execute([0xFF; 32], None, b"crash test");
    let mut wal = Wal::new();
    wal.append(&run.entry);
    run.completed();
    let log = wal.commit();
    run.completed();
    assert_eq!(run.step, DeclineStep::WriteFile);

    let pending = DeclineProtocol::recover(&log).unwrap();
    assert_eq!(pending.len(), 1);
    assert_eq!(pending[0].content_ref, Some(DeclineProtocol::compute_hash(b"crash test")));
}

#[test]
fn a_digest_is_the_known_one() {
    let hash = DeclineProtocol::compute_hash(b"abc");
    assert_eq!(
        to_hex(&hash),
        "ba7816bf8f01cfea414140de5dae2223b00361a396177a9cb410ff61f20015ad"
    );
    assert!(same_hash(&hash, &BlobStore::compute_hash(b"abc")));
    assert!(!same_hash(&hash, &BlobStore::compute_hash(b"abd")));
    assert_eq!(hash_to_hex(&hash), to_hex(&hash));
    assert_eq!(shard_dir(&hash), "ba");
    assert_eq!(trigger_name(SnapshotTrigger::Debounce), "Debounce");
}

fn version(seq_no: u64, id: u64, parent: Option<u64>, full: bool) -> VersionNode {
    VersionNode {
        version_id: id,
        path_hash: [0x11; 32],
        seq_no,
        timestamp_ns: 0,
        parent_id: parent,
        ancestors: AncestorTable::new(),
        full_content: if full { Some([0xCC; 32]) } else { None },
        delta: if full { None } else { Some(DeltaRef { hash: [0xDD; 32], compressed_size: 100 }) },
        delta_depth: if full { 0 } else { 1 },
        trigger: SnapshotTrigger::Write,
    }
}

#[test]
fn test_gc_fifo_eviction() {
    let mut tree = VersionTree::new();
    let mut quota = QuotaManager::new(100);

    tree.add_node(version(1, 1, None, true));
    tree.add_node(version(2, 2, Some(1), false));
    let mut third = version(3, 3, None, false);
    third.delta = Some(DeltaRef { hash: [0xDD; 32], compressed_size: 200 });
    tree.add_node(third);

    quota.used_bytes = 400;

    let freed = quota.run_gc(&mut tree);
    assert!(freed > 0, "expected to free orphan node2");
}

#[test]
fn test_gc_preserves_head_chain() {
    let mut tree = VersionTree::new();

    tree.add_node(version(1, 1, None, true));
    tree.add_node(version(2, 2, Some(1), false));
    tree.add_node(version(3, 3, Some(2), false));

    let head_ids = QuotaManager::collect_head_ids(&tree);

    assert!(head_ids.contains(1));
    assert!(head_ids.contains(2));
    assert!(head_ids.contains(3));
    assert!(QuotaManager::gc_queue(&tree).is_empty());
}

#[test]
fn test_orphan_pruning() {
    let mut tree = VersionTree::new();
    let mut quota = QuotaManager::new(1000);
    quota.set_grace_period(1_000_000);

    tree.add_node(version(1, 1, None, true));
    tree.add_node(version(2, 2, None, true));

    let now: u128 = 10_000_000_000;
    quota.orphan_since.push((1, now - 1_000_000_000));

    quota.prune_orphan_branches(&mut tree, now);

    assert!(quota.gc_eligible_count() > 0);
}

#[test]
fn test_git_commit_hook() {
    let mut tree = VersionTree::new();
    let mut quota = QuotaManager::new(1000);

    tree.add_node(version(1, 1, None, true));
    tree.add_node(version(2, 2, Some(1), false));
    tree.add_node(version(3, 3, Some(2), false));

    quota.on_git_commit(&mut tree, 2);

    assert_eq!(quota.gc_eligible_count(), 0);
}

#[test]
fn the_oldest_version_leaves_first_and_room_is_made_once() {
    let mut tree = VersionTree::new();
    for (seq, id) in [(1, 1), (2, 2), (3, 3)] {
        tree.add_node(version(seq, id, None, false));
    }
    let queue = QuotaManager::gc_queue(&tree);
    let ids: Vec<u64> = queue.iter().map(|candidate| candidate.version_id).collect();
    assert_eq!(ids, vec![1, 2]);
    let mut quota = QuotaManager::new(350);
    quota.used_bytes = 400;
    assert!(quota.is_over_quota());
    assert_eq!(quota.gc_room(&tree), Some(100));
    assert_eq!(quota.run_gc(&mut tree), 100);
    assert_eq!(quota.used_bytes, 300);
    assert!(!quota.is_over_quota());
    assert_eq!(quota.run_gc(&mut tree), 0);
    let marked = quota.gc_eligible_count();
    assert_eq!(marked, 1);
    quota.clear_gc_eligible(&[1]);
    assert_eq!(quota.gc_eligible_count(), 0);
    assert_eq!(DEFAULT_GRACE_PERIOD, 24 * 3600 * 1_000_000_000);
    let mut huge = VersionTree::new();
    for id in 1..=3 {
        let mut node = version(id, id, None, false);
        node.delta = Some(DeltaRef { hash: [0; 32], compressed_size: u64::MAX - 1 });
        huge.add_node(node);
    }
    let mut quota = QuotaManager::new(0);
    quota.used_bytes = u64::MAX;
    assert_eq!(quota.gc_room(&huge), None);
}

#[test]
fn a_tree_knows_its_heads_and_orphans() {
    let mut tree = VersionTree::new();
    tree.add_node(version(1, 1, None, true));
    tree.add_node(version(2, 2, Some(1), false));
    assert!(!tree.orphans.contains(1));
    tree.add_node(version(3, 3, None, true));
    assert!(tree.orphans.contains(2));
    assert_eq!(tree.get_node(2).unwrap().seq_no, 2);
    assert!(tree.get_node(9).is_none());
    tree.mark_gc_eligible(&vec![2]);
    assert!(tree.gc_eligible.contains(2));
}

#[test]
fn a_set_holds_each_number_once() {
    let mut set = IdSet::new();
    assert!(set.insert(4));
    assert!(!set.insert(4));
    set.insert_all(&vec![1, 4, 2]);
    assert_eq!(set.len(), 3);
    let mut other = IdSet::new();
    other.insert_set(&set);
    other.remove(4);
    assert!(!other.contains(4));
    let mut ids = other.to_vec();
    ids.sort();
    assert_eq!(ids, vec![1, 2]);
}

/// The rows of a blob table, as a database would keep them.
struct Table {
    rows: HashMap<[u8; 32], (Vec<u8>, bool, i64)>,
}

impl Table {
    fn put(&mut self, data: &[u8]) -> [u8; 32] {
        let blob = BlobStore::put(data).unwrap();
        let count = self.rows.get(&blob.hash).map(|row| row.2);
        match BlobStore::put_action(count, blob.inline) {
            PutAction::Increment => self.rows.get_mut(&blob.hash).unwrap().2 += 1,
            PutAction::InsertInline | PutAction::WriteFile => {
                self.rows.insert(blob.hash, (blob.bytes, blob.compressed, 1));
            }
        }
        blob.hash
    }

    fn get(&self, hash: &[u8; 32]) -> Vec<u8> {
        let (bytes, compressed, _) = &self.rows[hash];
        BlobStore::get(bytes.clone(), *compressed).unwrap()
    }

    fn unref(&mut self, hash: &[u8; 32]) {
        match BlobStore::unref_action(self.refcount(hash)) {
            UnrefAction::Delete => {
                self.rows.remove(hash);
            }
            UnrefAction::SetCount(count) => self.rows.get_mut(hash).unwrap().2 = count,
        }
    }

    fn refcount(&self, hash: &[u8; 32]) -> Option<i64> {
        self.rows.get(hash).map(|row| row.2)
    }
}

#[test]
fn test_blob_inline() {
    let mut store = Table { rows: HashMap::new() };

    let data = b"hello, small blob";
    let hash = store.put(data);

    assert_eq!(store.get(&hash), data.as_slice());
    assert_eq!(store.refcount(&hash), Some(1));
    assert!(BlobStore::put(data).unwrap().inline);
}

#[test]
fn test_blob_large() {
    let mut store = Table { rows: HashMap::new() };

    let data = vec![0xABu8; 5000];
    let hash = store.put(&data);

    assert_eq!(store.get(&hash), data);
    let blob = BlobStore::put(&data).unwrap();
    assert!(!blob.inline);
    assert!(blob.compressed);
    assert!(blob.bytes.len() < data.len());
    assert_eq!(blob.size, 5000);
}

#[test]
fn test_blob_dedup() {
    let mut store = Table { rows: HashMap::new() };

    let data = b"dedup test";
    store.put(data);
    store.put(data);

    let hash = BlobStore::compute_hash(data);
    assert_eq!(store.refcount(&hash), Some(2));

    store.unref(&hash);
    assert_eq!(store.refcount(&hash), Some(1));

    store.unref(&hash);
    assert_eq!(store.refcount(&hash), None);
}

#[test]
fn the_shorter_form_is_stored() {
    let blob = BlobStore::stored(b"abc", vec![1, 2, 3, 4]);
    assert!(!blob.compressed);
    assert_eq!(blob.bytes, b"abc");
    let blob = BlobStore::stored(b"abc", vec![1]);
    assert!(blob.compressed);
    assert_eq!(blob.bytes, vec![1]);
    assert_eq!(
        BlobStore::get(b"no frame".to_vec(), true).unwrap_err(),
        BlobError::DecompressionFailed
    );
    assert_eq!(BlobStore::put_action(None, false), PutAction::WriteFile);
    assert_eq!(BlobStore::put_action(None, true), PutAction::InsertInline);
    assert_eq!(INLINE_THRESHOLD, 4096);
}

#[test]
fn test_binary_detection_elf() {
    assert!(Monitor::is_binary_file(b"\x7fELF"));
}

#[test]
fn test_binary_detection_pe() {
    assert!(Monitor::is_binary_file(b"MZ"));
}

#[test]
fn test_text_file_not_binary() {
    assert!(!Monitor::is_binary_file(b"Hello, World!\n"));
}

#[test]
fn test_ignore_filter_default() {
    let filter = IgnoreFilter::new("/tmp/test".to_string());

    assert!(filter.should_ignore(Some("/tmp/test/.git/HEAD")));
    assert!(filter.should_ignore(Some("/tmp/test/node_modules/pkg/index.js")));
    assert!(filter.should_ignore(Some("/tmp/test/main.pyc")));
    assert!(!filter.should_ignore(Some("/tmp/test/src/main.rs")));
    assert!(!filter.should_ignore(None));
}

#[test]
fn test_circuit_breaker() {
    let mut cb = CircuitBreaker::new();

    assert!(!cb.check("/tmp/test.txt", 0));
    assert!(!cb.check("/tmp/test.txt", 2_001_000_000));
}

#[test]
fn ignore_files_add_their_patterns() {
    let mut filter = IgnoreFilter::new("/tmp/test".to_string());
    filter.add_ignore_file("# comment\n\n  *.bak  \ndist/\n#*.rs\nlast");
    assert!(filter.should_ignore(Some("/tmp/test/a.bak")));
    assert!(filter.should_ignore(Some("/tmp/test/dist/a.js")));
    assert!(filter.should_ignore(Some("/tmp/test/last")));
    assert!(!filter.should_ignore(Some("/tmp/test/a.rs")));
    assert_eq!(ignore_file_names(), [".z3rmignore", ".gitignore"]);
}

#[test]
fn zeros_make_a_file_binary() {
    let mut content = vec![b'a'; 120];
    for byte in content.iter_mut().take(12) {
        *byte = 0;
    }
    assert!(!Monitor::is_binary_file(&content));
    content[110] = 0;
    assert!(Monitor::is_binary_file(&content));
    let mut long = vec![b'a'; 5000];
    for byte in long.iter_mut().skip(512) {
        *byte = 0;
    }
    assert!(!Monitor::is_binary_file(&long));
    for byte in long.iter_mut().take(52) {
        *byte = 0;
    }
    assert!(Monitor::is_binary_file(&long));
    assert!(Monitor::is_binary_file(&[0xFE, 0xED, 0xFA, 0xCE]));
    assert!(!Monitor::is_binary_file(&[]));
}

#[test]
fn a_file_that_is_written_too_often_is_suspended_until_it_is_idle() {
    let mut cb = CircuitBreaker::new();
    let path = "/busy";
    assert!(!cb.check(path, 1));
    let mut tripped = false;
    for i in 1..60u64 {
        tripped = cb.check(path, 1 + i * SECOND / 100);
    }
    assert!(tripped);
    let last = 1 + 59 * SECOND / 100;
    assert!(cb.check(path, last + 2 * SECOND));
    assert!(!cb.check(path, last + 5 * SECOND));
}

#[test]
fn a_monitor_passes_over_what_is_no_source() {
    let mut monitor = Monitor::new("/w".to_string());
    assert!(monitor.handle_event(Some("/w/a.rs"), "/w/a.rs", Some(b"fn main() {}"), 5));
    assert!(!monitor.handle_event(Some("/w/a.pyc"), "/w/a.pyc", Some(b"x"), 5));
    assert!(!monitor.handle_event(Some("/w/a.bin"), "/w/a.bin", Some(b"\x7fELF"), 5));
    monitor.add_ignore_pattern("*.rs");
    assert!(!monitor.handle_event(Some("/w/b.rs"), "/w/b.rs", Some(b""), 5));
    assert!(IgnoreFilter::matches_pattern("/w/target/x", "target/"));
    assert!(!IgnoreFilter::matches_pattern("/w/src/x", "target/"));
}

#[test]
fn a_snapshot_is_promoted_once_its_deltas_are_gone() {
    let mut tree = VersionTree::new();
    let mut quota = QuotaManager::new(1000);
    tree.add_node(version(1, 1, None, true));
    tree.add_node(version(2, 2, Some(1), false));
    assert_eq!(quota.batch_promote(&tree), 0);
    quota.gc_eligible.insert(2);
    assert_eq!(quota.batch_promote(&tree), 1);
}
